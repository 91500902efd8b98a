//! Upgrading v1 operation logs to v2.
//!
//! A v1 log only lists the files present after the operation. The upgrade is
//! a left fold over one hoard's v1 logs in chronological order; it carries the
//! last recorded checksum of every file ever seen (`None` once deleted) and
//! the set of files present in the previous log.

use vstd::prelude::*;
use crate::assoc::{AssocList, ViewKey, keys_distinct, map_of, lemma_map_of_take};
use crate::checksum::{Checksum, ChecksumType, ChecksumView};
use crate::log::{ChangeView, Direction, FileChange, Hoard, HoardView, OperationV2, Pile, deleted_paths, pile_of};
use crate::v1::{FileKey, HoardV1, OperationV1, PileFile, v1_presence};

verus! {

/// The last checksum recorded for a file, or that it was deleted.
#[derive(Debug)]
pub enum LastChecksum {
    Present(Checksum),
    Deleted,
}

impl View for LastChecksum {
    type V = Option<ChecksumView>;

    open spec fn view(&self) -> Option<ChecksumView> {
        match self {
            LastChecksum::Present(c) => Some(c@),
            LastChecksum::Deleted => None,
        }
    }
}

/// The checksum a v1 log means by a hex digest.
pub open spec fn md5_of(hex: Seq<char>) -> ChecksumView {
    (ChecksumType::MD5, hex)
}

/// How a file present in a v1 log is recorded in v2, given the checksums
/// carried from the earlier logs.
pub open spec fn upgraded_change(old: Map<FileKey, Option<ChecksumView>>, k: FileKey, hex: Seq<char>) -> ChangeView {
    if old.contains_key(k) && old[k] is Some {
        if old[k] == Some(md5_of(hex)) {
            ChangeView::Unmodified(md5_of(hex))
        } else {
            ChangeView::Modified(md5_of(hex))
        }
    } else {
        ChangeView::Created(md5_of(hex))
    }
}

/// Every file change of the upgraded log: the files present now, and as
/// deleted the files of the previous log that are no longer present.
pub open spec fn upgraded_changes(
    old: Map<FileKey, Option<ChecksumView>>,
    prev: Set<FileKey>,
    present: Map<FileKey, Seq<char>>,
) -> Map<FileKey, ChangeView> {
    Map::new(
        |k: FileKey| present.contains_key(k) || prev.contains(k),
        |k: FileKey|
            if present.contains_key(k) {
                upgraded_change(old, k, present[k])
            } else {
                ChangeView::Deleted
            },
    )
}

/// The checksums carried on after a log.
pub open spec fn next_checksums(
    old: Map<FileKey, Option<ChecksumView>>,
    prev: Set<FileKey>,
    present: Map<FileKey, Seq<char>>,
) -> Map<FileKey, Option<ChecksumView>> {
    Map::new(
        |k: FileKey| old.contains_key(k) || present.contains_key(k) || prev.contains(k),
        |k: FileKey|
            if present.contains_key(k) {
                Some(md5_of(present[k]))
            } else if prev.contains(k) {
                None
            } else {
                old[k]
            },
    )
}

/// The changes of the anonymous pile.
pub open spec fn anonymous_pile(c: Map<FileKey, ChangeView>) -> Map<Seq<char>, ChangeView> {
    Map::new(|p: Seq<char>| c.contains_key((None, p)), |p: Seq<char>| c[(None, p)])
}

/// The changes of the pile with the given name.
pub open spec fn named_pile(c: Map<FileKey, ChangeView>, n: Seq<char>) -> Map<Seq<char>, ChangeView> {
    Map::new(|p: Seq<char>| c.contains_key((Some(n), p)), |p: Seq<char>| c[(Some(n), p)])
}

/// The changes grouped into named piles; a name with no change has no pile.
pub open spec fn named_piles(c: Map<FileKey, ChangeView>) -> Map<Seq<char>, Map<Seq<char>, ChangeView>> {
    Map::new(
        |n: Seq<char>| exists|p: Seq<char>| #[trigger] c.contains_key((Some(n), p)),
        |n: Seq<char>| named_pile(c, n),
    )
}

/// The files of the upgraded log, in the shape of the v1 log. An anonymous
/// log with nothing at all records its root path as deleted.
pub open spec fn upgraded_hoard(anonymous: bool, c: Map<FileKey, ChangeView>) -> HoardView {
    if anonymous {
        if anonymous_pile(c).dom() == Set::<Seq<char>>::empty() {
            HoardView::Anonymous(map![Seq::<char>::empty() => ChangeView::Deleted])
        } else {
            HoardView::Anonymous(anonymous_pile(c))
        }
    } else {
        HoardView::Named(named_piles(c))
    }
}

/// The direction a v1 log records.
pub open spec fn v1_direction(is_backup: bool) -> Direction {
    if is_backup {
        Direction::Backup
    } else {
        Direction::Restore
    }
}

/// Groups the changes of an anonymous log into its pile.
fn group_anonymous(changes: &AssocList<PileFile, FileChange>) -> (r: Pile)
    ensures
        r@ == anonymous_pile(changes@),
{
    let n = changes.len();
    let ghost e = changes.entries();
    let mut pile = Pile::new();
    let mut i: usize = 0;
    while i < n
        invariant
            n == e.len(),
            e == changes.entries(),
            keys_distinct(e),
            map_of(e) == changes@,
            i <= n,
            pile@ == anonymous_pile(map_of(e.take(i as int))),
        decreases n - i,
    {
        let entry = changes.entry(i);
        proof {
            lemma_map_of_take(e, i as int);
        }
        if entry.0.pile_name.is_none() {
            pile.record(entry.0.relative_path.clone(), entry.1.duplicate());
        }
        proof {
            assert(pile@ =~= anonymous_pile(map_of(e.take(i as int + 1))));
        }
        i = i + 1;
    }
    proof {
        assert(e.take(n as int) == e);
    }
    pile
}

/// Groups the changes of a named log into its piles.
fn group_named(changes: &AssocList<PileFile, FileChange>) -> (r: AssocList<String, Pile>)
    ensures
        r@ == named_piles(changes@),
{
    let n = changes.len();
    let ghost e = changes.entries();
    let mut piles: AssocList<String, Pile> = AssocList::new();
    let mut i: usize = 0;
    proof {
        assert(piles@ =~= named_piles(map_of(e.take(0))));
    }
    while i < n
        invariant
            n == e.len(),
            e == changes.entries(),
            keys_distinct(e),
            map_of(e) == changes@,
            i <= n,
            piles@ == named_piles(map_of(e.take(i as int))),
        decreases n - i,
    {
        let entry = changes.entry(i);
        let ghost m = map_of(e.take(i as int));
        let ghost m2 = map_of(e.take(i as int + 1));
        proof {
            lemma_map_of_take(e, i as int);
        }
        match &entry.0.pile_name {
            Some(name) => {
                let mut pile = match piles.take(name) {
                    Some(p) => p,
                    None => Pile::new(),
                };
                proof {
                    assert(pile@ =~= named_pile(m, name@));
                }
                pile.record(entry.0.relative_path.clone(), entry.1.duplicate());
                piles.insert(name.clone(), pile);
                proof {
                    assert forall|x: Seq<char>| #[trigger] named_piles(m2).contains_key(x) implies piles@.contains_key(x) by {
                        if x != name@ {
                            let p = choose|p: Seq<char>| #[trigger] m2.contains_key((Some(x), p));
                            assert(m.contains_key((Some(x), p)));
                        }
                    }
                    assert forall|x: Seq<char>| #[trigger] piles@.contains_key(x) implies named_piles(m2).contains_key(x)
                        && piles@[x] =~= named_piles(m2)[x] by {
                        if x == name@ {
                            assert(m2.contains_key((Some(x), entry.0.relative_path@)));
                        } else {
                            let p = choose|p: Seq<char>| #[trigger] m.contains_key((Some(x), p));
                            assert(m2.contains_key((Some(x), p)));
                        }
                    }
                    assert(piles@ =~= named_piles(m2));
                }
            },
            None => {
                proof {
                    assert(named_piles(m2) =~= named_piles(m)) by {
                        assert forall|x: Seq<char>| #[trigger] named_piles(m2).contains_key(x) implies named_piles(m).contains_key(x)
                            && named_piles(m2)[x] =~= named_piles(m)[x] by {
                            let p = choose|p: Seq<char>| #[trigger] m2.contains_key((Some(x), p));
                            assert(m.contains_key((Some(x), p)));
                        }
                        assert forall|x: Seq<char>| #[trigger] named_piles(m).contains_key(x) implies named_piles(m2).contains_key(x) by {
                            let p = choose|p: Seq<char>| #[trigger] m.contains_key((Some(x), p));
                            assert(m2.contains_key((Some(x), p)));
                        }
                    }
                }
            },
        }
        i = i + 1;
    }
    proof {
        assert(e.take(n as int) == e);
    }
    piles
}

impl OperationV2 {
    /// Converts a v1 log to v2, given what the earlier logs of the same hoard
    /// left in `file_checksums` (every file ever seen, with its last checksum)
    /// and `file_set` (the files present in the previous log). Both are
    /// brought up to date for the next log.
    pub fn from_v1(
        file_checksums: &mut AssocList<PileFile, LastChecksum>,
        file_set: &mut AssocList<PileFile, ()>,
        old_v1: OperationV1,
    ) -> (r: OperationV2)
        ensures
            r.timestamp == old_v1.timestamp,
            r.direction == v1_direction(old_v1.is_backup),
            r.hoard@ == old_v1.hoard_name@,
            r.files@ == upgraded_hoard(
                old_v1.hoard is Anonymous,
                upgraded_changes(old(file_checksums)@, old(file_set)@.dom(), v1_presence(old_v1.hoard@)),
            ),
            final(file_checksums)@ == next_checksums(
                old(file_checksums)@,
                old(file_set)@.dom(),
                v1_presence(old_v1.hoard@),
            ),
            final(file_set)@.dom() == v1_presence(old_v1.hoard@).dom(),
    {
        let ghost old0 = file_checksums@;
        let ghost prev = file_set@.dom();
        let present = old_v1.all_files_with_checksums();
        let ghost pres = map_of(present@);
        let mut changes: AssocList<PileFile, FileChange> = AssocList::new();
        let mut these: AssocList<PileFile, ()> = AssocList::new();
        let mut i: usize = 0;
        proof {
            assert(changes@ =~= upgraded_changes(old0, Set::empty(), map_of(present@.take(0))));
            assert(file_checksums@ =~= next_checksums(old0, Set::empty(), map_of(present@.take(0))));
            assert(these@.dom() =~= map_of(present@.take(0)).dom());
        }
        while i < present.len()
            invariant
                keys_distinct(present@),
                pres == map_of(present@),
                i <= present@.len(),
                changes@ == upgraded_changes(old0, Set::empty(), map_of(present@.take(i as int))),
                file_checksums@ == next_checksums(old0, Set::empty(), map_of(present@.take(i as int))),
                these@.dom() == map_of(present@.take(i as int)).dom(),
                file_set@.dom() == prev,
            decreases present@.len() - i,
        {
            let entry = &present[i];
            let ghost m = map_of(present@.take(i as int));
            proof {
                lemma_map_of_take(present@, i as int);
            }
            let cs = Checksum::MD5(entry.1.clone());
            let change = match file_checksums.get(&entry.0) {
                Some(LastChecksum::Present(last)) => if last.eq(&cs) {
                    FileChange::Unmodified(cs.duplicate())
                } else {
                    FileChange::Modified(cs.duplicate())
                },
                _ => FileChange::Created(cs.duplicate()),
            };
            changes.insert(entry.0.copy_key(), change);
            file_checksums.insert(entry.0.copy_key(), LastChecksum::Present(cs));
            these.insert(entry.0.copy_key(), ());
            proof {
                let m2 = map_of(present@.take(i as int + 1));
                assert(changes@ =~= upgraded_changes(old0, Set::empty(), m2));
                assert(file_checksums@ =~= next_checksums(old0, Set::empty(), m2));
                assert(these@.dom() =~= m2.dom());
            }
            i = i + 1;
        }
        proof {
            assert(present@.take(present@.len() as int) == present@);
        }
        let n = file_set.len();
        let ghost e = file_set.entries();
        let mut j: usize = 0;
        proof {
            assert(changes@ =~= upgraded_changes(old0, map_of(e.take(0)).dom(), pres));
            assert(file_checksums@ =~= next_checksums(old0, map_of(e.take(0)).dom(), pres));
        }
        while j < n
            invariant
                n == e.len(),
                e == file_set.entries(),
                keys_distinct(e),
                map_of(e) == file_set@,
                file_set@.dom() == prev,
                j <= n,
                these@.dom() == pres.dom(),
                changes@ == upgraded_changes(old0, map_of(e.take(j as int)).dom(), pres),
                file_checksums@ == next_checksums(old0, map_of(e.take(j as int)).dom(), pres),
            decreases n - j,
        {
            let entry = file_set.entry(j);
            let ghost s = map_of(e.take(j as int)).dom();
            proof {
                lemma_map_of_take(e, j as int);
            }
            if these.find(&entry.0).is_none() {
                changes.insert(entry.0.copy_key(), FileChange::Deleted);
                file_checksums.insert(entry.0.copy_key(), LastChecksum::Deleted);
            }
            proof {
                let s2 = map_of(e.take(j as int + 1)).dom();
                assert(s2 =~= s.insert(e[j as int].0@));
                assert(changes@ =~= upgraded_changes(old0, s2, pres));
                assert(file_checksums@ =~= next_checksums(old0, s2, pres));
            }
            j = j + 1;
        }
        proof {
            assert(e.take(n as int) == e);
        }
        *file_set = these;
        let files = match &old_v1.hoard {
            HoardV1::Anonymous(_) => {
                let mut pile = group_anonymous(&changes);
                if pile.files().len() == 0 {
                    proof {
                        pile@.dom().lemma_len0_is_empty();
                    }
                    pile.record(String::new(), FileChange::Deleted);
                    proof {
                        assert(pile@ =~= map![Seq::<char>::empty() => ChangeView::Deleted]);
                    }
                } else {
                    proof {
                        if pile@.dom() == Set::<Seq<char>>::empty() {
                            assert(pile@.dom().len() == 0);
                        }
                    }
                }
                Hoard::Anonymous(pile)
            },
            HoardV1::Named(_) => Hoard::Named(group_named(&changes)),
        };
        let direction = if old_v1.is_backup {
            Direction::Backup
        } else {
            Direction::Restore
        };
        OperationV2::new(old_v1.timestamp, direction, old_v1.hoard_name, files)
    }
}

/// An operation log in either format.
#[derive(Debug)]
pub enum Operation {
    V1(OperationV1),
    V2(OperationV2),
}

/// The checksums and the present files carried past a sequence of logs: v1
/// logs update them, v2 logs leave them as they are.
pub open spec fn carried(ops: Seq<Operation>) -> (Map<FileKey, Option<ChecksumView>>, Set<FileKey>)
    decreases ops.len(),
{
    if ops.len() == 0 {
        (Map::empty(), Set::empty())
    } else {
        let c = carried(ops.drop_last());
        match ops.last() {
            Operation::V1(op) => (next_checksums(c.0, c.1, v1_presence(op.hoard@)), v1_presence(op.hoard@).dom()),
            Operation::V2(_) => c,
        }
    }
}

/// `r` is the upgrade of `op`, the log at position `i` of `ops`: a v2 log is
/// itself, a v1 log is converted with what the logs before it carried.
pub open spec fn upgraded_at(ops: Seq<Operation>, i: int, r: OperationV2) -> bool {
    match ops[i] {
        Operation::V2(op) => r == op,
        Operation::V1(op) => {
            let c = carried(ops.take(i));
            &&& r.timestamp == op.timestamp
            &&& r.direction == v1_direction(op.is_backup)
            &&& r.hoard@ == op.hoard_name@
            &&& r.files@ == upgraded_hoard(
                op.hoard is Anonymous,
                upgraded_changes(c.0, c.1, v1_presence(op.hoard@)),
            )
        },
    }
}

/// `r` is the upgrade of the whole sequence `ops`, log by log.
pub open spec fn upgraded_all(ops: Seq<Operation>, r: Seq<OperationV2>) -> bool {
    &&& r.len() == ops.len()
    &&& forall|i: int| 0 <= i < ops.len() ==> #[trigger] upgraded_at(ops, i, r[i])
}

/// Upgrades the logs of one hoard, given in chronological order, to v2.
pub fn upgrade_operations(ops: Vec<Operation>) -> (r: Vec<OperationV2>)
    ensures
        upgraded_all(ops@, r@),
{
    let ghost all = ops@;
    let mut rest = ops;
    let mut file_checksums: AssocList<PileFile, LastChecksum> = AssocList::new();
    let mut file_set: AssocList<PileFile, ()> = AssocList::new();
    let mut r: Vec<OperationV2> = Vec::new();
    proof {
        assert(all.take(0) =~= Seq::<Operation>::empty());
        assert(file_checksums@ =~= carried(all.take(0)).0);
        assert(file_set@.dom() =~= carried(all.take(0)).1);
    }
    while rest.len() > 0
        invariant
            r@.len() <= all.len(),
            rest@ == all.skip(r@.len() as int),
            file_checksums@ == carried(all.take(r@.len() as int)).0,
            file_set@.dom() == carried(all.take(r@.len() as int)).1,
            forall|i: int| 0 <= i < r@.len() ==> #[trigger] upgraded_at(all, i, r@[i]),
        decreases rest@.len(),
    {
        let ghost i = r@.len() as int;
        let op = rest.remove(0);
        proof {
            assert(op == all[i]);
            assert(rest@ =~= all.skip(i + 1));
            assert(all.take(i + 1).drop_last() =~= all.take(i));
            assert(all.take(i + 1).last() == all[i]);
        }
        let ghost before = r@;
        match op {
            Operation::V1(old_v1) => {
                let converted = OperationV2::from_v1(&mut file_checksums, &mut file_set, old_v1);
                r.push(converted);
            },
            Operation::V2(op2) => {
                r.push(op2);
            },
        }
        proof {
            assert forall|j: int| 0 <= j < r@.len() implies #[trigger] upgraded_at(all, j, r@[j]) by {
                if j < i {
                    assert(r@[j] == before[j]);
                }
            }
        }
    }
    proof {
        assert(all.skip(r@.len() as int).len() == 0);
    }
    r
}

/// Upgrading leaves every log that is already v2 as it is: in particular,
/// a sequence that starts with v2 logs keeps that start unchanged.
pub proof fn lemma_upgrade_keeps_v2(ops: Seq<Operation>, r: Seq<OperationV2>)
    requires
        upgraded_all(ops, r),
    ensures
        forall|i: int| 0 <= i < ops.len() && (#[trigger] ops[i]) is V2 ==> Operation::V2(r[i]) == ops[i],
{
    assert forall|i: int| 0 <= i < ops.len() && (#[trigger] ops[i]) is V2 implies Operation::V2(r[i]) == ops[i] by {
        assert(upgraded_at(ops, i, r[i]));
    }
}

/// Each file of a v1 log is recorded as exactly one of created, modified or
/// unmodified in the upgraded log, and each file of the previous log that is
/// gone is recorded as deleted.
pub proof fn lemma_upgrade_round_shape(
    old: Map<FileKey, Option<ChecksumView>>,
    prev: Set<FileKey>,
    present: Map<FileKey, Seq<char>>,
)
    ensures
        forall|k: FileKey| #[trigger] present.contains_key(k) ==> upgraded_changes(old, prev, present).contains_key(k)
            && match upgraded_changes(old, prev, present)[k] {
            ChangeView::Created(c) => c == md5_of(present[k]),
            ChangeView::Modified(c) => c == md5_of(present[k]),
            ChangeView::Unmodified(c) => c == md5_of(present[k]),
            ChangeView::Deleted => false,
        },
        forall|k: FileKey| #[trigger] prev.contains(k) && !present.contains_key(k) ==> upgraded_changes(
            old,
            prev,
            present,
        ).contains_key(k) && upgraded_changes(old, prev, present)[k] == ChangeView::Deleted,
        forall|k: FileKey| #[trigger] upgraded_changes(old, prev, present).contains_key(k) ==> present.contains_key(k)
            || prev.contains(k),
{
}

/// The pile that a name selects, or an empty one.
pub open spec fn pile_or_empty(h: HoardView, name: Option<Seq<char>>) -> Map<Seq<char>, ChangeView> {
    match pile_of(h, name) {
        Some(p) => p,
        None => Map::empty(),
    }
}

/// In each pile of an upgraded log, the deleted paths are exactly that
/// pile's files of the previous log that the v1 log no longer lists (apart
/// from an anonymous log with nothing at all, which records its root path
/// as deleted).
pub proof fn lemma_upgrade_deleted_per_pile(
    old: Map<FileKey, Option<ChecksumView>>,
    prev: Set<FileKey>,
    present: Map<FileKey, Seq<char>>,
    anonymous: bool,
    name: Option<Seq<char>>,
)
    requires
        anonymous <==> name is None,
        !(anonymous && anonymous_pile(upgraded_changes(old, prev, present)).dom() == Set::<Seq<char>>::empty()),
    ensures
        deleted_paths(pile_or_empty(upgraded_hoard(anonymous, upgraded_changes(old, prev, present)), name)) == Set::new(
            |p: Seq<char>| prev.contains((name, p)) && !present.contains_key((name, p)),
        ),
{
    let c = upgraded_changes(old, prev, present);
    let pile = pile_or_empty(upgraded_hoard(anonymous, c), name);
    let want = Set::new(|p: Seq<char>| prev.contains((name, p)) && !present.contains_key((name, p)));
    if anonymous {
        assert(pile == anonymous_pile(c));
    } else {
        let n = name->0;
        if named_piles(c).contains_key(n) {
            assert(pile == named_pile(c, n));
        } else {
            assert(pile == Map::<Seq<char>, ChangeView>::empty());
            assert forall|p: Seq<char>| !want.contains(p) by {
                if want.contains(p) {
                    assert(c.contains_key((Some(n), p)));
                }
            }
        }
    }
    assert forall|p: Seq<char>| deleted_paths(pile).contains(p) == want.contains(p) by {
        if want.contains(p) {
            assert(c.contains_key((name, p)));
            if !anonymous {
                assert(named_piles(c).contains_key(name->0));
            }
        }
    }
    assert(deleted_paths(pile) =~= want);
}

} // verus!
