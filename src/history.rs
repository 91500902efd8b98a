//! What the logs last recorded for a file.
//!
//! The diff classifier needs, for each file, the latest record of it in this
//! system's logs and the latest one in the other systems' logs. Each is the
//! file's entry in the last log (in chronological order) that mentions it.

use vstd::prelude::*;
use crate::checksum::{Checksum, ChecksumView};
use crate::log::{OperationV2, checksum_after, holds_file, opt_checksum_view, opt_name_view, pile_of};

verus! {

/// The log mentions the file.
pub open spec fn mentions(op: OperationV2, pile_name: Option<Seq<char>>, path: Seq<char>) -> bool {
    holds_file(op.files@, pile_name, path)
}

/// The checksum a log that mentions the file recorded for it (`None` for a deletion).
pub open spec fn recorded_in(op: OperationV2, pile_name: Option<Seq<char>>, path: Seq<char>) -> Option<ChecksumView> {
    checksum_after(pile_of(op.files@, pile_name)->0[path])
}

/// The view of a latest record.
pub open spec fn record_view(r: Option<Option<Checksum>>) -> Option<Option<ChecksumView>> {
    match r {
        Some(c) => Some(opt_checksum_view(c)),
        None => None,
    }
}

/// The latest record of a file in logs given in chronological order: the
/// checksum after the last operation that mentions it (`Some(None)` if that
/// operation deleted it), or `None` when no log mentions it.
pub fn latest_record(logs: &Vec<OperationV2>, pile_name: Option<&String>, rel_path: &String) -> (r: Option<Option<Checksum>>)
    ensures
        r is None <==> forall|i: int| 0 <= i < logs@.len() ==> !#[trigger] mentions(logs@[i], opt_name_view(pile_name), rel_path@),
        r is Some ==> exists|i: int| 0 <= i < logs@.len() && #[trigger] mentions(logs@[i], opt_name_view(pile_name), rel_path@)
            && (forall|j: int| i < j < logs@.len() ==> !#[trigger] mentions(logs@[j], opt_name_view(pile_name), rel_path@))
            && record_view(r) == Some(recorded_in(logs@[i], opt_name_view(pile_name), rel_path@)),
{
    let mut i: usize = logs.len();
    while i > 0
        invariant
            i <= logs@.len(),
            forall|j: int| i <= j < logs@.len() ==> !#[trigger] mentions(logs@[j], opt_name_view(pile_name), rel_path@),
        decreases i,
    {
        i = i - 1;
        let op = &logs[i];
        if op.contains_file(pile_name, rel_path, false) {
            let c = op.checksum_for(pile_name, rel_path);
            proof {
                assert(mentions(logs@[i as int], opt_name_view(pile_name), rel_path@));
            }
            return Some(c);
        }
    }
    None
}

} // verus!
