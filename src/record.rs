//! Building the log of a finished backup or restore from its operations.

use vstd::prelude::*;
use crate::assoc::AssocList;
use crate::checksum::{Checksum, ChecksumView};
use crate::log::{ChangeView, Direction, FileChange, Hoard, HoardView, Pile, opt_checksum_view};
use crate::paths::{HoardFile, join_path};
use crate::translate::{ItemOperation, OperationKind};

verus! {

/// One performed operation with the checksums of the file afterwards, on the
/// system and in the hoard (`None` where the file is absent).
#[derive(Debug)]
pub struct FileOperation {
    pub operation: ItemOperation,
    pub system_checksum: Option<Checksum>,
    pub hoard_checksum: Option<Checksum>,
}

/// Why a log could not be built.
#[derive(Debug)]
pub enum RecordError {
    /// The file at this path has no checksum, though the operation left it in place.
    MissingChecksum(String),
}

/// The checksum a log records for an operation: for a backup the system's,
/// for a restore the hoard's; for an untouched file the system's.
pub open spec fn recorded_checksum(direction: Direction, fo: FileOperation) -> Option<ChecksumView> {
    match fo.operation.kind() {
        OperationKind::Create | OperationKind::Modify => match direction {
            Direction::Backup => opt_checksum_view(fo.system_checksum),
            Direction::Restore => opt_checksum_view(fo.hoard_checksum),
        },
        OperationKind::Nothing => opt_checksum_view(fo.system_checksum),
        OperationKind::Delete => None,
    }
}

/// The path whose checksum an operation needs.
pub open spec fn checksum_path(direction: Direction, fo: FileOperation) -> Seq<char> {
    let f = fo.operation.file();
    if fo.operation.kind() != OperationKind::Nothing && direction == Direction::Restore {
        join_path(f.hoard_prefix.0@, f.relative_path@)
    } else {
        join_path(f.system_prefix.0@, f.relative_path@)
    }
}

/// The change a log records for an operation; `None` when the checksum it
/// needs is missing.
pub open spec fn recorded_change(direction: Direction, fo: FileOperation) -> Option<ChangeView> {
    match fo.operation.kind() {
        OperationKind::Delete => Some(ChangeView::Deleted),
        OperationKind::Create => match recorded_checksum(direction, fo) {
            Some(c) => Some(ChangeView::Created(c)),
            None => None,
        },
        OperationKind::Modify => match recorded_checksum(direction, fo) {
            Some(c) => Some(ChangeView::Modified(c)),
            None => None,
        },
        OperationKind::Nothing => match recorded_checksum(direction, fo) {
            Some(c) => Some(ChangeView::Unmodified(c)),
            None => None,
        },
    }
}

/// The pile key of a file: its pile name, or the empty name in an anonymous hoard.
pub open spec fn pile_key(f: HoardFile) -> Seq<char> {
    match f.pile_name {
        Some(n) => n@,
        None => Seq::empty(),
    }
}

/// The piles that a sequence of operations records, by pile key; a later
/// operation on a path replaces an earlier one.
pub open spec fn recorded_piles(direction: Direction, ops: Seq<FileOperation>) -> Map<Seq<char>, Map<Seq<char>, ChangeView>>
    decreases ops.len(),
{
    if ops.len() == 0 {
        Map::empty()
    } else {
        let m = recorded_piles(direction, ops.drop_last());
        let fo = ops.last();
        let k = pile_key(fo.operation.file());
        let p = if m.contains_key(k) {
            m[k]
        } else {
            Map::empty()
        };
        m.insert(k, p.insert(fo.operation.file().relative_path@, recorded_change(direction, fo)->0))
    }
}

/// The files of the log, in the shape of the hoard: an anonymous hoard has
/// its one pile (under the empty key; empty when nothing was recorded), a
/// named hoard a pile for each name that has an operation.
pub open spec fn recorded_hoard(anonymous: bool, m: Map<Seq<char>, Map<Seq<char>, ChangeView>>) -> HoardView {
    if anonymous {
        HoardView::Anonymous(
            if m.contains_key(Seq::empty()) {
                m[Seq::empty()]
            } else {
                Map::empty()
            },
        )
    } else {
        HoardView::Named(m)
    }
}

/// The piles of the recorded log are those of the pile keys of the
/// operations, and no others.
pub proof fn lemma_recorded_pile_names(direction: Direction, ops: Seq<FileOperation>, n: Seq<char>)
    ensures
        recorded_piles(direction, ops).contains_key(n) <==> exists|i: int|
            0 <= i < ops.len() && #[trigger] pile_key(ops[i].operation.file()) == n,
    decreases ops.len(),
{
    if ops.len() > 0 {
        lemma_recorded_pile_names(direction, ops.drop_last(), n);
        if exists|i: int| 0 <= i < ops.len() && #[trigger] pile_key(ops[i].operation.file()) == n {
            let i = choose|i: int| 0 <= i < ops.len() && #[trigger] pile_key(ops[i].operation.file()) == n;
            if i < ops.len() - 1 {
                assert(pile_key(ops.drop_last()[i].operation.file()) == n);
            }
        }
        if exists|i: int| 0 <= i < ops.len() - 1 && #[trigger] pile_key(ops.drop_last()[i].operation.file()) == n {
            let i = choose|i: int| 0 <= i < ops.len() - 1 && #[trigger] pile_key(ops.drop_last()[i].operation.file()) == n;
            assert(pile_key(ops[i].operation.file()) == n);
        }
    }
}

/// Every operation has the checksum it needs.
pub open spec fn checksums_complete(direction: Direction, ops: Seq<FileOperation>) -> bool {
    forall|i: int| 0 <= i < ops.len() ==> (#[trigger] recorded_change(direction, ops[i])) is Some
}

/// The checksum of an operation, or the error that it is missing.
fn require_checksum(checksum: &Option<Checksum>, path: String) -> (r: Result<Checksum, RecordError>)
    ensures
        r matches Ok(c) ==> opt_checksum_view(*checksum) == Some(c@),
        r matches Err(RecordError::MissingChecksum(p)) ==> checksum is None && p@ == path@,
{
    match checksum {
        Some(c) => Ok(c.duplicate()),
        None => Err(RecordError::MissingChecksum(path)),
    }
}

/// Records a change in the pile with the given key, creating the pile.
fn record_in_pile(piles: &mut AssocList<String, Pile>, key: String, path: String, change: FileChange)
    ensures
        final(piles)@ == old(piles)@.insert(
            key@,
            (if old(piles)@.contains_key(key@) {
                old(piles)@[key@]
            } else {
                Map::empty()
            }).insert(path@, change@),
        ),
{
    let mut pile = match piles.take(&key) {
        Some(p) => p,
        None => Pile::new(),
    };
    pile.record(path, change);
    piles.insert(key, pile);
}

/// The change a log records for one operation.
fn change_of(direction: Direction, fo: &FileOperation) -> (r: Result<FileChange, RecordError>)
    ensures
        r matches Ok(c) ==> recorded_change(direction, *fo) == Some(c@),
        r matches Err(RecordError::MissingChecksum(p)) ==> recorded_change(direction, *fo) is None
            && p@ == checksum_path(direction, *fo),
{
    let file = fo.operation.hoard_file();
    match &fo.operation {
        ItemOperation::Delete(_) => Ok(FileChange::Deleted),
        ItemOperation::Nothing(_) => match require_checksum(&fo.system_checksum, file.system_path()) {
            Ok(c) => Ok(FileChange::Unmodified(c)),
            Err(e) => Err(e),
        },
        ItemOperation::Create(_) | ItemOperation::Modify(_) => {
            let checksum = match direction {
                Direction::Backup => require_checksum(&fo.system_checksum, file.system_path()),
                Direction::Restore => require_checksum(&fo.hoard_checksum, file.hoard_path()),
            };
            match checksum {
                Ok(c) => match &fo.operation {
                    ItemOperation::Create(_) => Ok(FileChange::Created(c)),
                    _ => Ok(FileChange::Modified(c)),
                },
                Err(e) => Err(e),
            }
        },
    }
}

impl Hoard {
    /// The files of the log of an operation in the given direction, from
    /// the operations performed on each file. Fails on the first operation
    /// whose checksum is missing.
    pub fn new(direction: Direction, anonymous: bool, ops: &Vec<FileOperation>) -> (r: Result<Hoard, RecordError>)
        ensures
            r is Ok <==> checksums_complete(direction, ops@),
            r matches Ok(h) ==> h@ == recorded_hoard(anonymous, recorded_piles(direction, ops@)),
            r matches Ok(h) ==> (h is Anonymous <==> anonymous),
            r matches Ok(h) ==> (anonymous && ops@.len() == 0 ==> h@ == HoardView::Anonymous(Map::empty())),
            r matches Err(RecordError::MissingChecksum(p)) ==> exists|i: int|
                0 <= i < ops@.len() && (forall|j: int| 0 <= j < i ==> (#[trigger] recorded_change(direction, ops@[j])) is Some)
                    && recorded_change(direction, ops@[i]) is None && p@ == checksum_path(direction, ops@[i]),
    {
        let mut piles: AssocList<String, Pile> = AssocList::new();
        let mut i: usize = 0;
        while i < ops.len()
            invariant
                i <= ops@.len(),
                forall|j: int| 0 <= j < i ==> (#[trigger] recorded_change(direction, ops@[j])) is Some,
                piles@ == recorded_piles(direction, ops@.take(i as int)),
            decreases ops@.len() - i,
        {
            let fo = &ops[i];
            match change_of(direction, fo) {
                Ok(change) => {
                    let file = fo.operation.hoard_file();
                    let key = match &file.pile_name {
                        Some(n) => n.clone(),
                        None => String::new(),
                    };
                    proof {
                        assert(ops@.take(i as int + 1).drop_last() == ops@.take(i as int));
                    }
                    record_in_pile(&mut piles, key, file.relative_path.clone(), change);
                },
                Err(e) => {
                    proof {
                        assert(!checksums_complete(direction, ops@));
                    }
                    return Err(e);
                },
            }
            i = i + 1;
        }
        proof {
            assert(ops@.take(ops@.len() as int) == ops@);
        }
        if anonymous {
            let empty = String::new();
            let pile = match piles.take(&empty) {
                Some(p) => p,
                None => Pile::new(),
            };
            return Ok(Hoard::Anonymous(pile));
        }
        Ok(Hoard::Named(piles))
    }
}

} // verus!
