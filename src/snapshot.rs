use vstd::prelude::*;
use vstd::string::*;
use crate::text::{decimal, decimal_u64, decimal_u64_width5, zero_pad};
use crate::utils::{json_string, json_string_of};

verus! {

/// Sequence number of the snapshot that follows `last_seq`.
pub fn next_seq(last_seq: u64) -> (r: u64)
    requires
        last_seq < u64::MAX,
    ensures
        r == last_seq + 1,
{
    last_seq + 1
}

/// Sequence number after `n` ticks, starting from `initial`.
pub open spec fn seq_after(initial: nat, n: nat) -> nat
    decreases n,
{
    if n == 0 {
        initial
    } else {
        seq_after(initial, (n - 1) as nat) + 1
    }
}

/// Each tick commits the successor of the previous sequence number, so after
/// `n` ticks the committed number is the initial one plus `n`.
pub proof fn lemma_seq_after_ticks(initial: nat, n: nat)
    ensures
        seq_after(initial, n) == initial + n,
    decreases n,
{
    if n > 0 {
        lemma_seq_after_ticks(initial, (n - 1) as nat);
    }
}

/// Name of a snapshot: five-digit sequence number, a dash, the local time.
pub open spec fn snapshot_name_of(seq: nat, time: Seq<char>) -> Seq<char> {
    zero_pad(decimal(seq), 5) + "-"@ + time
}

pub fn snapshot_name(seq: u64, time: &str) -> (r: String)
    ensures
        r@ == snapshot_name_of(seq as nat, time@),
{
    let mut r = decimal_u64_width5(seq);
    r.append("-");
    r.append(time);
    r
}

/// The snapshot metadata document, pretty-printed, with a trailing newline.
pub open spec fn metadata_json_of(time: Seq<char>, name: Seq<char>, seq: nat) -> Seq<char> {
    "{\n  \"last_update\": {\n    \"name\": "@ + json_string_of(name) + ",\n    \"seq\": "@
        + decimal(seq) + ",\n    \"time\": "@ + json_string_of(time) + "\n  }\n}\n"@
}

pub fn metadata_json(time: &str, snapshot_name: &str, seq: u64) -> (r: String)
    ensures
        r@ == metadata_json_of(time@, snapshot_name@, seq as nat),
{
    let mut r = String::from_str("{\n  \"last_update\": {\n    \"name\": ");
    let n = json_string(snapshot_name);
    r.append(n.as_str());
    r.append(",\n    \"seq\": ");
    let d = decimal_u64(seq);
    r.append(d.as_str());
    r.append(",\n    \"time\": ");
    let t = json_string(time);
    r.append(t.as_str());
    r.append("\n  }\n}\n");
    assert(r@ =~= metadata_json_of(time@, snapshot_name@, seq as nat));
    r
}

/// The last committed sequence number: the one read from the metadata
/// document, or 0 when it is absent or malformed.
pub fn last_seq(read: Option<u64>) -> (r: u64)
    ensures
        r == match read {
            Some(s) => s,
            None => 0,
        },
{
    match read {
        Some(s) => s,
        None => 0,
    }
}

} // verus!
