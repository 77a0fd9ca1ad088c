use vstd::prelude::*;
use crate::types::{ModuleRequest, RequestView, requests_view};

verus! {

/// Target modules of a request sequence, each once, in order of first appearance.
pub open spec fn distinct_modules(rs: Seq<RequestView>) -> Seq<Seq<char>>
    decreases rs.len(),
{
    if rs.len() == 0 {
        Seq::empty()
    } else {
        let d = distinct_modules(rs.drop_last());
        if d.contains(rs.last().module) {
            d
        } else {
            d.push(rs.last().module)
        }
    }
}

/// The requests addressed to module `m`, in order.
pub open spec fn for_module(rs: Seq<RequestView>, m: Seq<char>) -> Seq<RequestView>
    decreases rs.len(),
{
    if rs.len() == 0 {
        Seq::empty()
    } else {
        let p = for_module(rs.drop_last(), m);
        if rs.last().module == m {
            p.push(rs.last())
        } else {
            p
        }
    }
}

/// A module that appears among the targets has at least one request.
pub proof fn lemma_distinct_nonempty(rs: Seq<RequestView>, m: Seq<char>)
    requires
        distinct_modules(rs).contains(m),
    ensures
        for_module(rs, m).len() > 0,
    decreases rs.len(),
{
    if rs.len() > 0 {
        let d = distinct_modules(rs.drop_last());
        if rs.last().module != m {
            assert(d.contains(m)) by {
                if !d.contains(rs.last().module) {
                    let i = choose|i: int| 0 <= i < d.push(rs.last().module).len() && d.push(rs.last().module)[i] == m;
                    assert(i < d.len());
                    assert(d[i] == m);
                }
            }
            lemma_distinct_nonempty(rs.drop_last(), m);
        }
    }
}

/// The targets are pairwise distinct.
pub proof fn lemma_distinct_unique(rs: Seq<RequestView>)
    ensures
        distinct_modules(rs).no_duplicates(),
    decreases rs.len(),
{
    if rs.len() > 0 {
        lemma_distinct_unique(rs.drop_last());
    }
}

fn contains_name(names: &Vec<String>, s: &String) -> (r: bool)
    ensures
        r == names@.map_values(|x: String| x@).contains(s@),
{
    let ghost v = names@.map_values(|x: String| x@);
    let mut i: usize = 0;
    while i < names.len()
        invariant
            i <= names@.len(),
            v == names@.map_values(|x: String| x@),
            forall|k: int| 0 <= k < i ==> v[k] != s@,
        decreases names.len() - i,
    {
        if names[i] == *s {
            assert(v[i as int] == s@);
            return true;
        }
        i = i + 1;
    }
    false
}

/// Splits requests into one batch per target module, modules in order of
/// first appearance, each batch in input order.
pub fn group_by_module(rs: &Vec<ModuleRequest>) -> (r: Vec<(String, Vec<ModuleRequest>)>)
    ensures
        r@.len() == distinct_modules(requests_view(rs@)).len(),
        forall|k: int| 0 <= k < r@.len() ==> {
            &&& (#[trigger] r@[k]).0@ == distinct_modules(requests_view(rs@))[k]
            &&& requests_view(r@[k].1@) == for_module(requests_view(rs@), r@[k].0@)
        },
{
    let ghost vs = requests_view(rs@);
    let mut names: Vec<String> = Vec::new();
    let mut i: usize = 0;
    while i < rs.len()
        invariant
            i <= rs@.len(),
            vs == requests_view(rs@),
            names@.map_values(|x: String| x@) == distinct_modules(vs.take(i as int)),
        decreases rs.len() - i,
    {
        proof {
            assert(vs.take(i as int + 1).drop_last() =~= vs.take(i as int));
            assert(vs.take(i as int + 1).last() == rs@[i as int]@);
        }
        if !contains_name(&names, &rs[i].module) {
            let ghost prev = names@;
            names.push(rs[i].module.clone());
            assert(names@.map_values(|x: String| x@) =~= prev.map_values(|x: String| x@).push(rs@[i as int].module@));
        }
        i = i + 1;
    }
    assert(vs.take(rs@.len() as int) =~= vs);
    let ghost ds = distinct_modules(vs);
    let mut out: Vec<(String, Vec<ModuleRequest>)> = Vec::new();
    let mut k: usize = 0;
    while k < names.len()
        invariant
            k <= names@.len(),
            vs == requests_view(rs@),
            names@.map_values(|x: String| x@) == ds,
            ds == distinct_modules(vs),
            out@.len() == k,
            forall|j: int| 0 <= j < k ==> {
                &&& (#[trigger] out@[j]).0@ == ds[j]
                &&& requests_view(out@[j].1@) == for_module(vs, out@[j].0@)
            },
        decreases names.len() - k,
    {
        let name = &names[k];
        assert(name@ == ds[k as int]);
        let mut batch: Vec<ModuleRequest> = Vec::new();
        let mut i: usize = 0;
        while i < rs.len()
            invariant
                i <= rs@.len(),
                vs == requests_view(rs@),
                requests_view(batch@) == for_module(vs.take(i as int), name@),
            decreases rs.len() - i,
        {
            proof {
                assert(vs.take(i as int + 1).drop_last() =~= vs.take(i as int));
                assert(vs.take(i as int + 1).last() == rs@[i as int]@);
            }
            if rs[i].module == *name {
                let ghost prev = batch@;
                batch.push(rs[i].copy());
                assert(requests_view(batch@) =~= requests_view(prev).push(rs@[i as int]@));
            }
            i = i + 1;
        }
        assert(vs.take(rs@.len() as int) =~= vs);
        out.push((name.clone(), batch));
        k = k + 1;
    }
    out
}

} // verus!
