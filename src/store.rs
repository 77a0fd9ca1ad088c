use vstd::prelude::*;
use vstd::string::*;
use crate::types::{Change, Observation, Resource, opt_view, clone_opt};

verus! {

pub struct ResourceRow {
    pub module: String,
    pub resource: String,
    pub source: Option<String>,
    pub last_seen: i64,
}

pub struct ObservationRow {
    pub module: String,
    pub resource: String,
    pub attribute: String,
    pub value: String,
    pub first_seen: i64,
    pub last_changed: i64,
    pub last_seen: i64,
    pub severity: String,
}

pub struct ChangeRow {
    pub module: String,
    pub resource: String,
    pub attribute: String,
    pub old_value: String,
    pub new_value: String,
    pub severity: String,
    pub timestamp: i64,
}

/// A severity that still awaits classification.
pub open spec fn unclassified(severity: Seq<char>) -> bool {
    severity == Seq::<char>::empty() || severity == "unknown"@
}

/// Whether a classification applies to a change row: same resource,
/// attribute and values (the module is not compared).
pub open spec fn classifies(row: ChangeRow, c: Change) -> bool {
    &&& row.resource@ == c.resource@
    &&& row.attribute@ == c.attribute@
    &&& row.old_value@ == c.old_value@
    &&& row.new_value@ == c.new_value@
}

pub open spec fn obs_key(row: ObservationRow, o: Observation) -> bool {
    row.module@ == o.module@ && row.resource@ == o.resource@ && row.attribute@ == o.attribute@
}

pub open spec fn res_key(row: ResourceRow, r: Resource) -> bool {
    row.module@ == r.module@ && row.resource@ == r.resource@
}

/// An in-memory store with the relational store's semantics: resources
/// keyed by (module, resource), observations by (module, resource,
/// attribute), and change rows produced by outside observers.
pub struct MemoryStore {
    pub resources: Vec<ResourceRow>,
    pub observations: Vec<ObservationRow>,
    pub changes: Vec<ChangeRow>,
}

fn eq_str(a: &String, b: &String) -> (r: bool)
    ensures
        r == (a@ == b@),
{
    *a == *b
}

fn is_unclassified(s: &String) -> (r: bool)
    ensures
        r == unclassified(s@),
{
    *s == String::new() || *s == String::from_str("unknown")
}

impl MemoryStore {
    /// Natural keys are unique.
    pub open spec fn wf(self) -> bool {
        &&& forall|i: int, j: int|
            0 <= i < j < self.resources@.len() ==> !((#[trigger] self.resources@[i]).module@
                == (#[trigger] self.resources@[j]).module@ && self.resources@[i].resource@
                == self.resources@[j].resource@)
        &&& forall|i: int, j: int|
            0 <= i < j < self.observations@.len() ==> !((#[trigger] self.observations@[i]).module@
                == (#[trigger] self.observations@[j]).module@ && self.observations@[i].resource@
                == self.observations@[j].resource@ && self.observations@[i].attribute@
                == self.observations@[j].attribute@)
    }

    pub fn new() -> (r: Self)
        ensures
            r.wf(),
            r.resources@.len() == 0,
            r.observations@.len() == 0,
            r.changes@.len() == 0,
    {
        MemoryStore { resources: Vec::new(), observations: Vec::new(), changes: Vec::new() }
    }

    /// Records a change row, as an outside observer does.
    pub fn add_change(&mut self, row: ChangeRow)
        ensures
            final(self).resources == old(self).resources,
            final(self).observations == old(self).observations,
            final(self).changes@ == old(self).changes@.push(row),
    {
        self.changes.push(row);
    }

    /// All resource rows.
    pub fn list_resources(&self) -> (r: Vec<Resource>)
        ensures
            r@.len() == self.resources@.len(),
            forall|i: int| 0 <= i < r@.len() ==> {
                &&& (#[trigger] r@[i]).resource@ == self.resources@[i].resource@
                &&& r@[i].module@ == self.resources@[i].module@
                &&& opt_view(r@[i].source) == opt_view(self.resources@[i].source)
            },
    {
        let mut out: Vec<Resource> = Vec::new();
        let mut i: usize = 0;
        while i < self.resources.len()
            invariant
                i <= self.resources@.len(),
                out@.len() == i,
                forall|k: int| 0 <= k < i ==> {
                    &&& (#[trigger] out@[k]).resource@ == self.resources@[k].resource@
                    &&& out@[k].module@ == self.resources@[k].module@
                    &&& opt_view(out@[k].source) == opt_view(self.resources@[k].source)
                },
            decreases self.resources.len() - i,
        {
            let row = &self.resources[i];
            out.push(Resource {
                resource: row.resource.clone(),
                module: row.module.clone(),
                source: clone_opt(&row.source),
            });
            i = i + 1;
        }
        out
    }

    /// The change rows awaiting classification, in order, with an empty
    /// severity.
    pub fn list_unclassified_changes(&self) -> (r: Vec<Change>)
        ensures
            r@.len() == self.changes@.filter(|c: ChangeRow| unclassified(c.severity@)).len(),
            forall|i: int| 0 <= i < r@.len() ==> {
                let row = self.changes@.filter(|c: ChangeRow| unclassified(c.severity@))[i];
                &&& (#[trigger] r@[i]).resource@ == row.resource@
                &&& r@[i].module@ == row.module@
                &&& r@[i].attribute@ == row.attribute@
                &&& r@[i].old_value@ == row.old_value@
                &&& r@[i].new_value@ == row.new_value@
                &&& r@[i].severity@ == Seq::<char>::empty()
                &&& r@[i].timestamp == row.timestamp
            },
    {
        let ghost f = |c: ChangeRow| unclassified(c.severity@);
        let mut out: Vec<Change> = Vec::new();
        let mut i: usize = 0;
        while i < self.changes.len()
            invariant
                i <= self.changes@.len(),
                f == (|c: ChangeRow| unclassified(c.severity@)),
                out@.len() == self.changes@.take(i as int).filter(f).len(),
                forall|k: int| 0 <= k < out@.len() ==> {
                    let row = self.changes@.take(i as int).filter(f)[k];
                    &&& (#[trigger] out@[k]).resource@ == row.resource@
                    &&& out@[k].module@ == row.module@
                    &&& out@[k].attribute@ == row.attribute@
                    &&& out@[k].old_value@ == row.old_value@
                    &&& out@[k].new_value@ == row.new_value@
                    &&& out@[k].severity@ == Seq::<char>::empty()
                    &&& out@[k].timestamp == row.timestamp
                },
            decreases self.changes.len() - i,
        {
            let row = &self.changes[i];
            proof {
                let t = self.changes@.take(i as int + 1);
                assert(t.drop_last() =~= self.changes@.take(i as int));
                assert(t.last() == *row);
                assert(t.filter(f) == if f(*row) {
                    self.changes@.take(i as int).filter(f).push(*row)
                } else {
                    self.changes@.take(i as int).filter(f)
                }) by {
                    reveal(Seq::filter);
                }
            }
            if is_unclassified(&row.severity) {
                out.push(Change {
                    resource: row.resource.clone(),
                    module: row.module.clone(),
                    attribute: row.attribute.clone(),
                    old_value: row.old_value.clone(),
                    new_value: row.new_value.clone(),
                    severity: String::new(),
                    timestamp: row.timestamp,
                });
            }
            i = i + 1;
        }
        assert(self.changes@.take(self.changes@.len() as int) =~= self.changes@);
        out
    }

    /// Inserts a resource with `source`; when one with the same key exists,
    /// only its `last_seen` becomes `now`.
    pub fn upsert_resource(&mut self, resource: &Resource, source: &str, now: i64)
        requires
            old(self).wf(),
        ensures
            final(self).wf(),
            final(self).observations == old(self).observations,
            final(self).changes == old(self).changes,
            (exists|i: int| 0 <= i < old(self).resources@.len() && res_key(#[trigger] old(self).resources@[i], *resource))
                ==> exists|i: int| 0 <= i < old(self).resources@.len() && res_key(#[trigger] old(self).resources@[i], *resource)
                && final(self).resources@ == old(self).resources@.update(i, ResourceRow { last_seen: now, ..old(self).resources@[i] }),
            !(exists|i: int| 0 <= i < old(self).resources@.len() && res_key(#[trigger] old(self).resources@[i], *resource))
                ==> final(self).resources@.len() == old(self).resources@.len() + 1
                && final(self).resources@.drop_last() == old(self).resources@
                && res_key(final(self).resources@.last(), *resource)
                && opt_view(final(self).resources@.last().source) == Some(source@)
                && final(self).resources@.last().last_seen == now,
    {
        let mut i: usize = 0;
        while i < self.resources.len()
            invariant
                i <= self.resources@.len(),
                old(self).wf(),
                self.resources == old(self).resources,
                self.observations == old(self).observations,
                self.changes == old(self).changes,
                forall|k: int| 0 <= k < i ==> !res_key(#[trigger] self.resources@[k], *resource),
            decreases self.resources.len() - i,
        {
            if eq_str(&self.resources[i].module, &resource.module) && eq_str(&self.resources[i].resource, &resource.resource) {
                let mut row = self.resources.remove(i);
                let ghost old_row = row;
                row.last_seen = now;
                self.resources.insert(i, row);
                proof {
                    assert(self.resources@ =~= old(self).resources@.update(i as int, ResourceRow { last_seen: now, ..old_row }));
                    assert forall|a: int, b: int| 0 <= a < b < self.resources@.len() implies !((#[trigger] self.resources@[a]).module@
                        == (#[trigger] self.resources@[b]).module@ && self.resources@[a].resource@
                        == self.resources@[b].resource@) by {
                        let oa = old(self).resources@[a];
                        let ob = old(self).resources@[b];
                        assert(old_row == old(self).resources@[i as int]);
                        assert(!(oa.module@ == ob.module@ && oa.resource@ == ob.resource@));
                        assert(self.resources@[a].module@ == oa.module@ && self.resources@[a].resource@ == oa.resource@);
                        assert(self.resources@[b].module@ == ob.module@ && self.resources@[b].resource@ == ob.resource@);
                    }
                }
                return;
            }
            i = i + 1;
        }
        self.resources.push(ResourceRow {
            module: resource.module.clone(),
            resource: resource.resource.clone(),
            source: Some(String::from_str(source)),
            last_seen: now,
        });
        proof {
            assert(self.resources@.drop_last() =~= old(self).resources@);
            let n = old(self).resources@.len() as int;
            assert forall|a: int, b: int| 0 <= a < b < self.resources@.len() implies !((#[trigger] self.resources@[a]).module@
                == (#[trigger] self.resources@[b]).module@ && self.resources@[a].resource@
                == self.resources@[b].resource@) by {
                if b == n {
                    assert(!res_key(old(self).resources@[a], *resource));
                    assert(self.resources@[a] == old(self).resources@[a]);
                } else {
                    assert(self.resources@[a] == old(self).resources@[a]);
                    assert(self.resources@[b] == old(self).resources@[b]);
                }
            }
        }
    }

    /// Inserts an observation stamped with its timestamp; for an existing
    /// key, updates value, severity and `last_seen`, and moves
    /// `last_changed` to the timestamp only when the value differs.
    pub fn upsert_observation(&mut self, obs: &Observation)
        requires
            old(self).wf(),
        ensures
            final(self).wf(),
            final(self).resources == old(self).resources,
            final(self).changes == old(self).changes,
            (exists|i: int| 0 <= i < old(self).observations@.len() && obs_key(#[trigger] old(self).observations@[i], *obs))
                ==> exists|i: int| 0 <= i < old(self).observations@.len() && obs_key(#[trigger] old(self).observations@[i], *obs)
                && final(self).observations@.len() == old(self).observations@.len()
                && (forall|k: int| 0 <= k < old(self).observations@.len() && k != i ==> #[trigger] final(self).observations@[k] == old(self).observations@[k])
                && obs_key(final(self).observations@[i], *obs)
                && final(self).observations@[i].value@ == obs.value@
                && final(self).observations@[i].severity@ == obs.severity@
                && final(self).observations@[i].first_seen == old(self).observations@[i].first_seen
                && final(self).observations@[i].last_seen == obs.timestamp
                && final(self).observations@[i].last_changed == (if old(self).observations@[i].value@ == obs.value@ {
                    old(self).observations@[i].last_changed
                } else {
                    obs.timestamp
                }),
            !(exists|i: int| 0 <= i < old(self).observations@.len() && obs_key(#[trigger] old(self).observations@[i], *obs))
                ==> final(self).observations@.len() == old(self).observations@.len() + 1
                && final(self).observations@.drop_last() == old(self).observations@
                && obs_key(final(self).observations@.last(), *obs)
                && final(self).observations@.last().value@ == obs.value@
                && final(self).observations@.last().severity@ == obs.severity@
                && final(self).observations@.last().first_seen == obs.timestamp
                && final(self).observations@.last().last_changed == obs.timestamp
                && final(self).observations@.last().last_seen == obs.timestamp,
    {
        let mut i: usize = 0;
        while i < self.observations.len()
            invariant
                i <= self.observations@.len(),
                old(self).wf(),
                self.resources == old(self).resources,
                self.observations == old(self).observations,
                self.changes == old(self).changes,
                forall|k: int| 0 <= k < i ==> !obs_key(#[trigger] self.observations@[k], *obs),
            decreases self.observations.len() - i,
        {
            let row = &self.observations[i];
            if eq_str(&row.module, &obs.module) && eq_str(&row.resource, &obs.resource) && eq_str(&row.attribute, &obs.attribute) {
                let mut row = self.observations.remove(i);
                let ghost old_row = row;
                if !eq_str(&row.value, &obs.value) {
                    row.last_changed = obs.timestamp;
                }
                row.last_seen = obs.timestamp;
                row.value = obs.value.clone();
                row.severity = obs.severity.clone();
                let ghost newrow = row;
                self.observations.insert(i, row);
                proof {
                    assert(self.observations@ =~= old(self).observations@.update(i as int, newrow));
                    assert forall|a: int, b: int| 0 <= a < b < self.observations@.len() implies !((#[trigger] self.observations@[a]).module@
                        == (#[trigger] self.observations@[b]).module@ && self.observations@[a].resource@
                        == self.observations@[b].resource@ && self.observations@[a].attribute@
                        == self.observations@[b].attribute@) by {
                        let oa = old(self).observations@[a];
                        let ob = old(self).observations@[b];
                        assert(old_row == old(self).observations@[i as int]);
                        assert(!(oa.module@ == ob.module@ && oa.resource@ == ob.resource@ && oa.attribute@ == ob.attribute@));
                        assert(self.observations@[a].module@ == oa.module@ && self.observations@[a].resource@ == oa.resource@ && self.observations@[a].attribute@ == oa.attribute@);
                        assert(self.observations@[b].module@ == ob.module@ && self.observations@[b].resource@ == ob.resource@ && self.observations@[b].attribute@ == ob.attribute@);
                    }
                }
                return;
            }
            i = i + 1;
        }
        self.observations.push(ObservationRow {
            module: obs.module.clone(),
            resource: obs.resource.clone(),
            attribute: obs.attribute.clone(),
            value: obs.value.clone(),
            first_seen: obs.timestamp,
            last_changed: obs.timestamp,
            last_seen: obs.timestamp,
            severity: obs.severity.clone(),
        });
        proof {
            assert(self.observations@.drop_last() =~= old(self).observations@);
            let n = old(self).observations@.len() as int;
            assert forall|a: int, b: int| 0 <= a < b < self.observations@.len() implies !((#[trigger] self.observations@[a]).module@
                == (#[trigger] self.observations@[b]).module@ && self.observations@[a].resource@
                == self.observations@[b].resource@ && self.observations@[a].attribute@
                == self.observations@[b].attribute@) by {
                if b == n {
                    assert(!obs_key(old(self).observations@[a], *obs));
                    assert(self.observations@[a] == old(self).observations@[a]);
                } else {
                    assert(self.observations@[a] == old(self).observations@[a]);
                    assert(self.observations@[b] == old(self).observations@[b]);
                }
            }
        }
    }

    /// Gives `change.severity` to every change row it classifies that still
    /// awaits classification; every other row is left as it was.
    pub fn classify_change(&mut self, change: &Change)
        ensures
            final(self).resources == old(self).resources,
            final(self).observations == old(self).observations,
            final(self).changes@.len() == old(self).changes@.len(),
            forall|i: int| 0 <= i < old(self).changes@.len() ==> {
                let row = old(self).changes@[i];
                if classifies(row, *change) && unclassified(row.severity@) {
                    (#[trigger] final(self).changes@[i]) == ChangeRow { severity: final(self).changes@[i].severity, ..row }
                        && final(self).changes@[i].severity@ == change.severity@
                } else {
                    final(self).changes@[i] == row
                }
            },
            forall|i: int| 0 <= i < old(self).changes@.len() && !unclassified(old(self).changes@[i].severity@)
                ==> #[trigger] final(self).changes@[i] == old(self).changes@[i],
    {
        let mut i: usize = 0;
        while i < self.changes.len()
            invariant
                i <= self.changes@.len(),
                self.resources == old(self).resources,
                self.observations == old(self).observations,
                self.changes@.len() == old(self).changes@.len(),
                forall|k: int| i <= k < self.changes@.len() ==> #[trigger] self.changes@[k] == old(self).changes@[k],
                forall|k: int| 0 <= k < i ==> {
                    let row = old(self).changes@[k];
                    if classifies(row, *change) && unclassified(row.severity@) {
                        (#[trigger] self.changes@[k]) == ChangeRow { severity: self.changes@[k].severity, ..row }
                            && self.changes@[k].severity@ == change.severity@
                    } else {
                        self.changes@[k] == row
                    }
                },
            decreases self.changes.len() - i,
        {
            let row = &self.changes[i];
            if eq_str(&row.resource, &change.resource) && eq_str(&row.attribute, &change.attribute)
                && eq_str(&row.old_value, &change.old_value) && eq_str(&row.new_value, &change.new_value)
                && is_unclassified(&row.severity) {
                let mut row = self.changes.remove(i);
                row.severity = change.severity.clone();
                self.changes.insert(i, row);
            }
            i = i + 1;
        }
    }
}

} // verus!
