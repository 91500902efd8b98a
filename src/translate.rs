//! Differences between the system and the hoard, and the operations that a
//! backup or a restore performs for them.

use vstd::prelude::*;
use crate::log::Direction;
use crate::paths::HoardFile;

verus! {

/// Where a change was made.
#[derive(Clone, Copy, Debug, PartialEq, Eq, Structural)]
pub enum DiffSource {
    /// On this system.
    Local,
    /// On another system, which backed it up.
    Remote,
    /// Both here and elsewhere.
    Mixed,
    /// Outside of any recorded operation.
    Unknown,
}

impl DiffSource {
    /// Where the change was made, in words.
    pub fn description(&self) -> (r: &'static str)
        ensures
            r@ == (match *self {
                DiffSource::Local => "locally"@,
                DiffSource::Remote => "remotely"@,
                DiffSource::Mixed => "locally and remotely"@,
                DiffSource::Unknown => "out-of-band"@,
            }),
    {
        match self {
            DiffSource::Local => "locally",
            DiffSource::Remote => "remotely",
            DiffSource::Mixed => "locally and remotely",
            DiffSource::Unknown => "out-of-band",
        }
    }
}

/// How a file differs between the system and the hoard.
#[derive(Clone, Debug)]
pub enum HoardFileDiff {
    /// Contents differ and at least one side is not text.
    BinaryModified { file: HoardFile, diff_source: DiffSource },
    /// Contents differ and both sides are text.
    TextModified { file: HoardFile, unified_diff: String, diff_source: DiffSource },
    /// Contents are the same, permissions differ.
    PermissionsModified { file: HoardFile, hoard_perms: u32, system_perms: u32, diff_source: DiffSource },
    /// The file is new.
    Created { file: HoardFile, diff_source: DiffSource },
    /// The file was deleted before and exists again.
    Recreated { file: HoardFile, diff_source: DiffSource },
    /// The file no longer exists.
    Deleted { file: HoardFile, diff_source: DiffSource },
    /// Nothing changed.
    Unchanged(HoardFile),
}

/// The operation to perform on one file.
#[derive(Clone, Debug)]
pub enum ItemOperation {
    Create(HoardFile),
    Modify(HoardFile),
    Delete(HoardFile),
    Nothing(HoardFile),
}

/// The kinds of [`ItemOperation`].
#[derive(Clone, Copy, Debug, PartialEq, Eq, Structural)]
pub enum OperationKind {
    Create,
    Modify,
    Delete,
    Nothing,
}

impl ItemOperation {
    /// The kind of the operation.
    pub open spec fn kind(&self) -> OperationKind {
        match self {
            ItemOperation::Create(_) => OperationKind::Create,
            ItemOperation::Modify(_) => OperationKind::Modify,
            ItemOperation::Delete(_) => OperationKind::Delete,
            ItemOperation::Nothing(_) => OperationKind::Nothing,
        }
    }

    /// The file the operation is on.
    pub open spec fn file(&self) -> HoardFile {
        match self {
            ItemOperation::Create(f) => *f,
            ItemOperation::Modify(f) => *f,
            ItemOperation::Delete(f) => *f,
            ItemOperation::Nothing(f) => *f,
        }
    }

    /// The file the operation is on.
    pub fn hoard_file(&self) -> (r: &HoardFile)
        ensures
            *r == self.file(),
    {
        match self {
            ItemOperation::Create(f) => f,
            ItemOperation::Modify(f) => f,
            ItemOperation::Delete(f) => f,
            ItemOperation::Nothing(f) => f,
        }
    }
}

impl HoardFileDiff {
    /// The file the difference is about.
    pub open spec fn file(&self) -> HoardFile {
        match self {
            HoardFileDiff::BinaryModified { file, .. } => *file,
            HoardFileDiff::TextModified { file, .. } => *file,
            HoardFileDiff::PermissionsModified { file, .. } => *file,
            HoardFileDiff::Created { file, .. } => *file,
            HoardFileDiff::Recreated { file, .. } => *file,
            HoardFileDiff::Deleted { file, .. } => *file,
            HoardFileDiff::Unchanged(file) => *file,
        }
    }
}

/// The operation for a created (or recreated) file. During a backup the
/// system is authoritative; during a restore the hoard is. A mixed change
/// counts as both; an unknown one counts as remote.
pub open spec fn created_operation(direction: Direction, source: DiffSource) -> OperationKind {
    match (direction, source) {
        (_, DiffSource::Mixed) => OperationKind::Create,
        (Direction::Backup, DiffSource::Local) => OperationKind::Create,
        (Direction::Backup, _) => OperationKind::Delete,
        (Direction::Restore, DiffSource::Local) => OperationKind::Delete,
        (Direction::Restore, _) => OperationKind::Create,
    }
}

/// The operation for a deleted file.
pub open spec fn deleted_operation(direction: Direction, source: DiffSource) -> OperationKind {
    match (direction, source) {
        (_, DiffSource::Mixed) => OperationKind::Delete,
        (Direction::Backup, DiffSource::Local) => OperationKind::Delete,
        (Direction::Backup, _) => OperationKind::Create,
        (Direction::Restore, DiffSource::Local) => OperationKind::Create,
        (Direction::Restore, _) => OperationKind::Delete,
    }
}

/// The operation that a difference calls for in a direction.
pub open spec fn operation_for(direction: Direction, diff: HoardFileDiff) -> OperationKind {
    match diff {
        HoardFileDiff::BinaryModified { .. } => OperationKind::Modify,
        HoardFileDiff::TextModified { .. } => OperationKind::Modify,
        HoardFileDiff::PermissionsModified { .. } => OperationKind::Modify,
        HoardFileDiff::Created { diff_source, .. } => created_operation(direction, diff_source),
        HoardFileDiff::Recreated { diff_source, .. } => created_operation(direction, diff_source),
        HoardFileDiff::Deleted { diff_source, .. } => deleted_operation(direction, diff_source),
        HoardFileDiff::Unchanged(_) => OperationKind::Nothing,
    }
}

fn created_kind(direction: Direction, source: DiffSource) -> (r: OperationKind)
    ensures
        r == created_operation(direction, source),
{
    match (direction, source) {
        (_, DiffSource::Mixed) => OperationKind::Create,
        (Direction::Backup, DiffSource::Local) => OperationKind::Create,
        (Direction::Backup, _) => OperationKind::Delete,
        (Direction::Restore, DiffSource::Local) => OperationKind::Delete,
        (Direction::Restore, _) => OperationKind::Create,
    }
}

fn deleted_kind(direction: Direction, source: DiffSource) -> (r: OperationKind)
    ensures
        r == deleted_operation(direction, source),
{
    match (direction, source) {
        (_, DiffSource::Mixed) => OperationKind::Delete,
        (Direction::Backup, DiffSource::Local) => OperationKind::Delete,
        (Direction::Backup, _) => OperationKind::Create,
        (Direction::Restore, DiffSource::Local) => OperationKind::Create,
        (Direction::Restore, _) => OperationKind::Delete,
    }
}

/// An operation of the given kind on a file.
fn make_operation(kind: OperationKind, file: HoardFile) -> (r: ItemOperation)
    ensures
        r.kind() == kind,
        r.file() == file,
{
    match kind {
        OperationKind::Create => ItemOperation::Create(file),
        OperationKind::Modify => ItemOperation::Modify(file),
        OperationKind::Delete => ItemOperation::Delete(file),
        OperationKind::Nothing => ItemOperation::Nothing(file),
    }
}

/// Turns the differences of a hoard into operations for one direction.
pub struct OperationIter {
    direction: Direction,
}

impl OperationIter {
    /// A translator for the given direction.
    pub fn new(direction: Direction) -> (r: OperationIter)
        ensures
            r.direction() == direction,
    {
        OperationIter { direction }
    }

    /// The direction operations are made for.
    pub closed spec fn direction(&self) -> Direction {
        self.direction
    }

    /// The operation for one difference, on the same file.
    pub fn next_operation(&self, diff: HoardFileDiff) -> (r: ItemOperation)
        ensures
            r.kind() == operation_for(self.direction(), diff),
            r.file() == diff.file(),
    {
        match diff {
            HoardFileDiff::BinaryModified { file, .. } => ItemOperation::Modify(file),
            HoardFileDiff::TextModified { file, .. } => ItemOperation::Modify(file),
            HoardFileDiff::PermissionsModified { file, .. } => ItemOperation::Modify(file),
            HoardFileDiff::Created { file, diff_source } => make_operation(
                created_kind(self.direction, diff_source),
                file,
            ),
            HoardFileDiff::Recreated { file, diff_source } => make_operation(
                created_kind(self.direction, diff_source),
                file,
            ),
            HoardFileDiff::Deleted { file, diff_source } => make_operation(
                deleted_kind(self.direction, diff_source),
                file,
            ),
            HoardFileDiff::Unchanged(file) => ItemOperation::Nothing(file),
        }
    }

    /// The operations for a stream of differences, one for each, in order.
    pub fn operations(&self, diffs: Vec<HoardFileDiff>) -> (r: Vec<ItemOperation>)
        ensures
            r@.len() == diffs@.len(),
            forall|i: int| 0 <= i < r@.len() ==> (#[trigger] r@[i]).kind() == operation_for(self.direction(), diffs@[i])
                && r@[i].file() == diffs@[i].file(),
    {
        let mut r: Vec<ItemOperation> = Vec::new();
        let mut rest = diffs;
        let ghost all = rest@;
        while rest.len() > 0
            invariant
                rest@ == all.skip(r@.len() as int),
                r@.len() <= all.len(),
                forall|i: int| 0 <= i < r@.len() ==> (#[trigger] r@[i]).kind() == operation_for(self.direction(), all[i])
                    && r@[i].file() == all[i].file(),
            decreases rest@.len(),
        {
            let d = rest.remove(0);
            proof {
                assert(d == all[r@.len() as int]);
                assert(rest@ =~= all.skip(r@.len() as int + 1));
            }
            r.push(self.next_operation(d));
        }
        proof {
            assert(all.skip(r@.len() as int).len() == 0);
        }
        r
    }
}

/// Whatever the stream of differences, each operation depends only on its
/// difference and the direction: two translators of one direction give the
/// same operations for the same differences.
pub proof fn lemma_translation_is_deterministic(
    direction: Direction,
    diffs: Seq<HoardFileDiff>,
    a: Seq<ItemOperation>,
    b: Seq<ItemOperation>,
)
    requires
        a.len() == diffs.len(),
        b.len() == diffs.len(),
        forall|i: int| 0 <= i < a.len() ==> (#[trigger] a[i]).kind() == operation_for(direction, diffs[i])
            && a[i].file() == diffs[i].file(),
        forall|i: int| 0 <= i < b.len() ==> (#[trigger] b[i]).kind() == operation_for(direction, diffs[i])
            && b[i].file() == diffs[i].file(),
    ensures
        forall|i: int| 0 <= i < a.len() ==> (#[trigger] a[i]).kind() == b[i].kind() && a[i].file() == b[i].file(),
{
}

} // verus!
