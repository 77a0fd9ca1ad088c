use vstd::prelude::*;
use vstd::string::*;
use crate::text::{decimal_i64, int_text};
use crate::types::{ModuleRequest, RequestView, requests_view};
use crate::utils::{json_string, json_string_of};

verus! {

/// `prefix` followed by the JSON literal of `v`, or nothing when `v` is absent.
pub open spec fn opt_field(prefix: Seq<char>, v: Option<Seq<char>>) -> Seq<char> {
    match v {
        Some(s) => prefix + json_string_of(s),
        None => Seq::empty(),
    }
}

/// The fields of a request's JSON object other than its timestamp, keys in
/// sorted order, absent optional fields omitted.
pub open spec fn identity_fields(r: RequestView) -> Seq<char> {
    (match r.attribute {
        Some(a) => "\"attribute\":"@ + json_string_of(a) + ","@,
        None => Seq::empty(),
    })
        + "\"module\":"@ + json_string_of(r.module)
        + opt_field(",\"new_value\":"@, r.new_value)
        + opt_field(",\"old_value\":"@, r.old_value)
        + ",\"operation\":"@ + json_string_of(r.operation)
        + ",\"resource\":"@ + json_string_of(r.resource)
        + opt_field(",\"source\":"@, r.source)
}

/// Compact JSON object of a request without its timestamp.
pub open spec fn identity_json(r: RequestView) -> Seq<char> {
    "{"@ + identity_fields(r) + "}"@
}

/// Compact JSON object of a request; the timestamp is the last key.
pub open spec fn request_json(r: RequestView) -> Seq<char> {
    "{"@ + identity_fields(r) + ",\"timestamp\":"@ + int_text(r.timestamp) + "}"@
}

/// Items joined with commas.
pub open spec fn join(items: Seq<Seq<char>>) -> Seq<char>
    decreases items.len(),
{
    if items.len() == 0 {
        Seq::empty()
    } else if items.len() == 1 {
        items[0]
    } else {
        join(items.drop_last()) + ","@ + items.last()
    }
}

pub open spec fn json_array(items: Seq<Seq<char>>) -> Seq<char> {
    "["@ + join(items) + "]"@
}

/// The serialization written into a request file.
pub open spec fn batch_json(rs: Seq<RequestView>) -> Seq<char> {
    json_array(rs.map_values(|r: RequestView| request_json(r)))
}

/// The serialization that identifies a batch: timestamps left out.
pub open spec fn batch_identity(rs: Seq<RequestView>) -> Seq<char> {
    json_array(rs.map_values(|r: RequestView| identity_json(r)))
}

spec fn item_json(r: RequestView, identity: bool) -> Seq<char> {
    if identity {
        identity_json(r)
    } else {
        request_json(r)
    }
}

fn append_opt(acc: &mut String, prefix: &str, v: &Option<String>)
    ensures
        final(acc)@ == old(acc)@ + opt_field(prefix@, crate::types::opt_view(*v)),
{
    match v {
        Some(s) => {
            acc.append(prefix);
            let q = json_string(s.as_str());
            acc.append(q.as_str());
            assert(final(acc)@ =~= old(acc)@ + (prefix@ + json_string_of(s@)));
        },
        None => {
            assert(acc@ =~= old(acc)@ + Seq::<char>::empty());
        },
    }
}

fn append_quoted(acc: &mut String, prefix: &str, s: &String)
    ensures
        final(acc)@ == old(acc)@ + prefix@ + json_string_of(s@),
{
    acc.append(prefix);
    let q = json_string(s.as_str());
    acc.append(q.as_str());
}

fn append_identity_fields(acc: &mut String, r: &ModuleRequest)
    ensures
        final(acc)@ == old(acc)@ + identity_fields(r@),
{
    match &r.attribute {
        Some(a) => {
            append_quoted(acc, "\"attribute\":", a);
            acc.append(",");
        },
        None => {},
    }
    append_quoted(acc, "\"module\":", &r.module);
    append_opt(acc, ",\"new_value\":", &r.new_value);
    append_opt(acc, ",\"old_value\":", &r.old_value);
    append_quoted(acc, ",\"operation\":", &r.operation);
    append_quoted(acc, ",\"resource\":", &r.resource);
    append_opt(acc, ",\"source\":", &r.source);
    assert(final(acc)@ =~= old(acc)@ + identity_fields(r@));
}

impl ModuleRequest {
    /// Compact JSON object of this request.
    pub fn to_json(&self) -> (r: String)
        ensures
            r@ == request_json(self@),
    {
        let mut acc = String::from_str("{");
        append_identity_fields(&mut acc, self);
        acc.append(",\"timestamp\":");
        let ts = decimal_i64(self.timestamp);
        acc.append(ts.as_str());
        acc.append("}");
        assert(acc@ =~= request_json(self@));
        acc
    }

    /// Compact JSON object of this request with its timestamp removed: the
    /// part of a request that identifies it.
    pub fn without_timestamp(&self) -> (r: String)
        ensures
            r@ == identity_json(self@),
            r@ == identity_json(self@.without_timestamp()),
    {
        let mut acc = String::from_str("{");
        append_identity_fields(&mut acc, self);
        acc.append("}");
        assert(acc@ =~= identity_json(self@));
        acc
    }
}

/// Serializes a batch of requests as a compact JSON array; with `identity`
/// each request is written without its timestamp.
pub fn requests_to_json(rs: &[ModuleRequest], identity: bool) -> (r: String)
    ensures
        identity ==> r@ == batch_identity(requests_view(rs@)),
        !identity ==> r@ == batch_json(requests_view(rs@)),
{
    let ghost items = requests_view(rs@).map_values(|r: RequestView| item_json(r, identity));
    let mut acc = String::from_str("[");
    let mut i: usize = 0;
    while i < rs.len()
        invariant
            i <= rs.len(),
            items.len() == rs@.len(),
            forall|k: int| 0 <= k < rs@.len() ==> #[trigger] items[k] == item_json(rs@[k]@, identity),
            acc@ == "["@ + join(items.take(i as int)),
        decreases rs.len() - i,
    {
        let item = if identity {
            rs[i].without_timestamp()
        } else {
            rs[i].to_json()
        };
        assert(item@ == items[i as int]);
        let ghost prev = acc@;
        if i > 0 {
            acc.append(",");
        }
        acc.append(item.as_str());
        proof {
            let t = items.take(i as int + 1);
            assert(t.drop_last() =~= items.take(i as int));
            assert(t.last() == items[i as int]);
            if i == 0 {
                assert(join(t) == items[0]);
            }
            assert(acc@ =~= "["@ + join(t));
        }
        i = i + 1;
    }
    acc.append("]");
    proof {
        assert(items.take(rs.len() as int) =~= items);
        assert(acc@ =~= json_array(items));
        if identity {
            assert(items =~= requests_view(rs@).map_values(|r: RequestView| identity_json(r)));
        } else {
            assert(items =~= requests_view(rs@).map_values(|r: RequestView| request_json(r)));
        }
    }
    acc
}

} // verus!
