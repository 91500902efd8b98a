//! The on-disk shape of a pile: four collections of paths (created,
//! modified, unmodified, deleted), which must not share a path.

use vstd::prelude::*;
use crate::assoc::{keys_distinct, map_of, lemma_map_of_entry, lemma_map_of_key, lemma_map_of_push, lemma_map_of_take};
use crate::checksum::{Checksum, ChecksumView};
use crate::log::{ChangeView, FileChange, Pile};

verus! {

/// The four collections of a pile as stored.
#[derive(Debug)]
pub struct PileParts {
    pub created: Vec<(String, Checksum)>,
    pub modified: Vec<(String, Checksum)>,
    pub unmodified: Vec<(String, Checksum)>,
    pub deleted: Vec<String>,
}

/// Which of the three checksum-carrying collections.
#[derive(Clone, Copy, Debug, PartialEq, Eq, Structural)]
pub enum PartKind {
    Created,
    Modified,
    Unmodified,
}

/// The change that a collection records for a checksum.
pub open spec fn change_of_kind(kind: PartKind, c: ChecksumView) -> ChangeView {
    match kind {
        PartKind::Created => ChangeView::Created(c),
        PartKind::Modified => ChangeView::Modified(c),
        PartKind::Unmodified => ChangeView::Unmodified(c),
    }
}

/// The entries of a pile that one collection holds.
pub open spec fn part_of(v: Map<Seq<char>, ChangeView>, kind: PartKind) -> Map<Seq<char>, ChecksumView> {
    Map::new(
        |k: Seq<char>| v.contains_key(k) && match (kind, v[k]) {
            (PartKind::Created, ChangeView::Created(_)) => true,
            (PartKind::Modified, ChangeView::Modified(_)) => true,
            (PartKind::Unmodified, ChangeView::Unmodified(_)) => true,
            _ => false,
        },
        |k: Seq<char>| match v[k] {
            ChangeView::Created(c) => c,
            ChangeView::Modified(c) => c,
            ChangeView::Unmodified(c) => c,
            ChangeView::Deleted => arbitrary(),
        },
    )
}

/// The paths of a pile that the deleted collection holds.
pub open spec fn deleted_part(v: Map<Seq<char>, ChangeView>) -> Set<Seq<char>> {
    Set::new(|k: Seq<char>| v.contains_key(k) && v[k] is Deleted)
}

/// A collection's entries as changes.
pub open spec fn as_changes(m: Map<Seq<char>, ChecksumView>, kind: PartKind) -> Map<Seq<char>, ChangeView> {
    Map::new(|k: Seq<char>| m.contains_key(k), |k: Seq<char>| change_of_kind(kind, m[k]))
}

/// The deleted paths as changes.
pub open spec fn as_deletions(d: Set<Seq<char>>) -> Map<Seq<char>, ChangeView> {
    Map::new(|k: Seq<char>| d.contains(k), |k: Seq<char>| ChangeView::Deleted)
}

/// The paths of a list of strings.
pub open spec fn path_set(d: Seq<String>) -> Set<Seq<char>> {
    Set::new(|k: Seq<char>| exists|i: int| 0 <= i < d.len() && #[trigger] d[i]@ == k)
}

/// No path occurs twice in a list.
pub open spec fn paths_distinct(d: Seq<String>) -> bool {
    forall|a: int, b: int| 0 <= a < b < d.len() ==> d[a]@ != d[b]@
}

/// The collections are well formed: no path twice in one, none in two.
pub open spec fn parts_valid(p: PileParts) -> bool {
    let c = map_of(p.created@).dom();
    let m = map_of(p.modified@).dom();
    let u = map_of(p.unmodified@).dom();
    let d = path_set(p.deleted@);
    &&& keys_distinct(p.created@)
    &&& keys_distinct(p.modified@)
    &&& keys_distinct(p.unmodified@)
    &&& paths_distinct(p.deleted@)
    &&& c.disjoint(m) && c.disjoint(u) && c.disjoint(d)
    &&& m.disjoint(u) && m.disjoint(d)
    &&& u.disjoint(d)
}

/// The pile that well-formed collections describe.
pub open spec fn parts_pile(p: PileParts) -> Map<Seq<char>, ChangeView> {
    as_changes(map_of(p.created@), PartKind::Created).union_prefer_right(
        as_changes(map_of(p.modified@), PartKind::Modified),
    ).union_prefer_right(as_changes(map_of(p.unmodified@), PartKind::Unmodified)).union_prefer_right(
        as_deletions(path_set(p.deleted@)),
    )
}

/// Splitting a pile into its four collections and joining them again gives
/// the pile back, and the collections share no path.
pub proof fn lemma_parts_round_trip(v: Map<Seq<char>, ChangeView>)
    ensures
        as_changes(part_of(v, PartKind::Created), PartKind::Created).union_prefer_right(
            as_changes(part_of(v, PartKind::Modified), PartKind::Modified),
        ).union_prefer_right(as_changes(part_of(v, PartKind::Unmodified), PartKind::Unmodified)).union_prefer_right(
            as_deletions(deleted_part(v)),
        ) == v,
        part_of(v, PartKind::Created).dom().disjoint(part_of(v, PartKind::Modified).dom()),
        part_of(v, PartKind::Created).dom().disjoint(part_of(v, PartKind::Unmodified).dom()),
        part_of(v, PartKind::Created).dom().disjoint(deleted_part(v)),
        part_of(v, PartKind::Modified).dom().disjoint(part_of(v, PartKind::Unmodified).dom()),
        part_of(v, PartKind::Modified).dom().disjoint(deleted_part(v)),
        part_of(v, PartKind::Unmodified).dom().disjoint(deleted_part(v)),
{
    let r = as_changes(part_of(v, PartKind::Created), PartKind::Created).union_prefer_right(
        as_changes(part_of(v, PartKind::Modified), PartKind::Modified),
    ).union_prefer_right(as_changes(part_of(v, PartKind::Unmodified), PartKind::Unmodified)).union_prefer_right(
        as_deletions(deleted_part(v)),
    );
    assert forall|k: Seq<char>| #[trigger] v.contains_key(k) implies r.contains_key(k) && r[k] == v[k] by {
        match v[k] {
            ChangeView::Created(c) => {},
            ChangeView::Modified(c) => {},
            ChangeView::Unmodified(c) => {},
            ChangeView::Deleted => {},
        }
    }
    assert(r =~= v);
}

/// Records the entries of one collection, each path once and none that the
/// pile already holds; hands back the first path that breaks this.
fn record_part(pile: &mut Pile, entries: &Vec<(String, Checksum)>, kind: PartKind) -> (r: Result<(), String>)
    ensures
        r is Ok <==> keys_distinct(entries@) && old(pile)@.dom().disjoint(map_of(entries@).dom()),
        r is Ok ==> final(pile)@ == old(pile)@.union_prefer_right(as_changes(map_of(entries@), kind)),
{
    let ghost start = pile@;
    let mut i: usize = 0;
    proof {
        assert(entries@.take(0) =~= Seq::<(String, Checksum)>::empty());
        assert(pile@ =~= start.union_prefer_right(as_changes(map_of(entries@.take(0)), kind)));
    }
    while i < entries.len()
        invariant
            i <= entries@.len(),
            start == old(pile)@,
            keys_distinct(entries@.take(i as int)),
            start.dom().disjoint(map_of(entries@.take(i as int)).dom()),
            pile@ == start.union_prefer_right(as_changes(map_of(entries@.take(i as int)), kind)),
        decreases entries@.len() - i,
    {
        let ghost t = entries@.take(i as int);
        let e = &entries[i];
        assert(entries@.take(i as int + 1) == t.push(entries@[i as int]));
        let found = pile.contains_file(&e.0, false);
        if found {
            proof {
                if keys_distinct(entries@) {
                    lemma_map_of_entry(entries@, i as int);
                    if start.contains_key(e.0@) {
                        assert(start.dom().contains(e.0@) && map_of(entries@).dom().contains(e.0@));
                    } else {
                        let j = lemma_map_of_key(t, e.0@);
                        assert(entries@[j].0@ == entries@[i as int].0@);
                    }
                }
            }
            return Err(e.0.clone());
        }
        let change = match kind {
            PartKind::Created => FileChange::Created(e.1.duplicate()),
            PartKind::Modified => FileChange::Modified(e.1.duplicate()),
            PartKind::Unmodified => FileChange::Unmodified(e.1.duplicate()),
        };
        pile.record(e.0.clone(), change);
        proof {
            lemma_map_of_push(t, entries@[i as int]);
            assert(pile@ =~= start.union_prefer_right(as_changes(map_of(entries@.take(i as int + 1)), kind)));
        }
        i = i + 1;
    }
    proof {
        assert(entries@.take(entries@.len() as int) == entries@);
    }
    Ok(())
}

/// Records the deleted paths, each once and none that the pile already
/// holds; hands back the first path that breaks this.
fn record_deleted(pile: &mut Pile, paths: &Vec<String>) -> (r: Result<(), String>)
    ensures
        r is Ok <==> paths_distinct(paths@) && old(pile)@.dom().disjoint(path_set(paths@)),
        r is Ok ==> final(pile)@ == old(pile)@.union_prefer_right(as_deletions(path_set(paths@))),
{
    let ghost start = pile@;
    let mut i: usize = 0;
    proof {
        assert(pile@ =~= start.union_prefer_right(as_deletions(path_set(paths@.take(0)))));
    }
    while i < paths.len()
        invariant
            i <= paths@.len(),
            start == old(pile)@,
            paths_distinct(paths@.take(i as int)),
            start.dom().disjoint(path_set(paths@.take(i as int))),
            pile@ == start.union_prefer_right(as_deletions(path_set(paths@.take(i as int)))),
        decreases paths@.len() - i,
    {
        let ghost t = paths@.take(i as int);
        let p = &paths[i];
        let ghost t2 = paths@.take(i as int + 1);
        assert(t2 == t.push(paths@[i as int]));
        let found = pile.contains_file(p, false);
        if found {
            proof {
                assert(path_set(paths@).contains(p@)) by {
                    assert(paths@[i as int]@ == p@);
                }
                if paths_distinct(paths@) && !start.contains_key(p@) {
                    assert(path_set(t).contains(p@));
                    let j = choose|j: int| 0 <= j < t.len() && #[trigger] t[j]@ == p@;
                    assert(paths@[j]@ == paths@[i as int]@);
                }
            }
            return Err(p.clone());
        }
        pile.record(p.clone(), FileChange::Deleted);
        proof {
            assert(path_set(t2) =~= path_set(t).insert(p@)) by {
                assert forall|k: Seq<char>| path_set(t2).contains(k) implies path_set(t).insert(p@).contains(k) by {
                    let j = choose|j: int| 0 <= j < t2.len() && #[trigger] t2[j]@ == k;
                    if j < i {
                        assert(t[j]@ == k);
                    }
                }
                assert forall|k: Seq<char>| path_set(t).insert(p@).contains(k) implies path_set(t2).contains(k) by {
                    if k == p@ {
                        assert(t2[i as int]@ == k);
                    } else {
                        let j = choose|j: int| 0 <= j < t.len() && #[trigger] t[j]@ == k;
                        assert(t2[j]@ == k);
                    }
                }
            }
            assert forall|a: int, b: int| 0 <= a < b < t2.len() implies t2[a]@ != t2[b]@ by {
                if b == i {
                    assert(t2[a] == t[a]);
                    assert(path_set(t).contains(t[a]@));
                }
            }
            assert(pile@ =~= start.union_prefer_right(as_deletions(path_set(t2))));
        }
        i = i + 1;
    }
    proof {
        assert(paths@.take(paths@.len() as int) == paths@);
    }
    Ok(())
}

impl Pile {
    /// The pile that the stored collections describe, or the first path that
    /// occurs twice in them.
    pub fn from_parts(parts: &PileParts) -> (r: Result<Pile, String>)
        ensures
            r is Ok <==> parts_valid(*parts),
            r matches Ok(p) ==> p@ == parts_pile(*parts),
    {
        let mut pile = Pile::new();
        let ghost c = map_of(parts.created@);
        let ghost m = map_of(parts.modified@);
        let ghost u = map_of(parts.unmodified@);
        let ghost d = path_set(parts.deleted@);
        match record_part(&mut pile, &parts.created, PartKind::Created) {
            Ok(()) => {},
            Err(path) => return Err(path),
        }
        let ghost after_created = pile@;
        proof {
            assert(after_created.dom() =~= c.dom());
        }
        match record_part(&mut pile, &parts.modified, PartKind::Modified) {
            Ok(()) => {},
            Err(path) => return Err(path),
        }
        let ghost after_modified = pile@;
        proof {
            assert(after_modified.dom() =~= c.dom().union(m.dom()));
        }
        match record_part(&mut pile, &parts.unmodified, PartKind::Unmodified) {
            Ok(()) => {},
            Err(path) => {
                proof {
                    assert(!after_modified.dom().disjoint(u.dom()) ==> !c.dom().disjoint(u.dom()) || !m.dom().disjoint(u.dom()));
                }
                return Err(path);
            },
        }
        let ghost after_unmodified = pile@;
        proof {
            assert(after_unmodified.dom() =~= c.dom().union(m.dom()).union(u.dom()));
        }
        match record_deleted(&mut pile, &parts.deleted) {
            Ok(()) => {},
            Err(path) => {
                proof {
                    assert(!after_unmodified.dom().disjoint(d) ==> !c.dom().disjoint(d) || !m.dom().disjoint(d) || !u.dom().disjoint(d));
                }
                return Err(path);
            },
        }
        Ok(pile)
    }

    /// The four collections that store the pile.
    pub fn to_parts(&self) -> (r: PileParts)
        ensures
            parts_describe(r, self@),
            keys_distinct(r.created@),
            keys_distinct(r.modified@),
            keys_distinct(r.unmodified@),
            paths_distinct(r.deleted@),
            map_of(r.created@) == part_of(self@, PartKind::Created),
            map_of(r.modified@) == part_of(self@, PartKind::Modified),
            map_of(r.unmodified@) == part_of(self@, PartKind::Unmodified),
            path_set(r.deleted@) == deleted_part(self@),
    {
        let files = self.files();
        let n = files.len();
        let ghost es = files.entries();
        let mut created: Vec<(String, Checksum)> = Vec::new();
        let mut modified: Vec<(String, Checksum)> = Vec::new();
        let mut unmodified: Vec<(String, Checksum)> = Vec::new();
        let mut deleted: Vec<String> = Vec::new();
        let mut i: usize = 0;
        proof {
            assert(map_of(created@) =~= part_of(map_of(es.take(0)), PartKind::Created));
            assert(map_of(modified@) =~= part_of(map_of(es.take(0)), PartKind::Modified));
            assert(map_of(unmodified@) =~= part_of(map_of(es.take(0)), PartKind::Unmodified));
            assert(path_set(deleted@) =~= deleted_part(map_of(es.take(0))));
        }
        while i < n
            invariant
                n == es.len(),
                es == files.entries(),
                keys_distinct(es),
                map_of(es) == self@,
                i <= n,
                keys_distinct(created@),
                keys_distinct(modified@),
                keys_distinct(unmodified@),
                paths_distinct(deleted@),
                map_of(created@) == part_of(map_of(es.take(i as int)), PartKind::Created),
                map_of(modified@) == part_of(map_of(es.take(i as int)), PartKind::Modified),
                map_of(unmodified@) == part_of(map_of(es.take(i as int)), PartKind::Unmodified),
                path_set(deleted@) == deleted_part(map_of(es.take(i as int))),
            decreases n - i,
        {
            let entry = files.entry(i);
            let ghost mi = map_of(es.take(i as int));
            let ghost mi2 = map_of(es.take(i as int + 1));
            proof {
                lemma_map_of_take(es, i as int);
            }
            let ghost before_d = deleted@;
            match &entry.1 {
                FileChange::Created(c) => {
                    let pair = (entry.0.clone(), c.duplicate());
                    proof {
                        lemma_map_of_push(created@, pair);
                    }
                    created.push(pair);
                },
                FileChange::Modified(c) => {
                    let pair = (entry.0.clone(), c.duplicate());
                    proof {
                        lemma_map_of_push(modified@, pair);
                    }
                    modified.push(pair);
                },
                FileChange::Unmodified(c) => {
                    let pair = (entry.0.clone(), c.duplicate());
                    proof {
                        lemma_map_of_push(unmodified@, pair);
                    }
                    unmodified.push(pair);
                },
                FileChange::Deleted => {
                    deleted.push(entry.0.clone());
                    proof {
                        assert forall|a: int, b: int| 0 <= a < b < deleted@.len() implies deleted@[a]@ != deleted@[b]@ by {
                            if b == before_d.len() {
                                assert(deleted@[a] == before_d[a]);
                                assert(path_set(before_d).contains(before_d[a]@));
                            }
                        }
                    }
                },
            }
            proof {
                assert(map_of(created@) =~= part_of(mi2, PartKind::Created));
                assert(map_of(modified@) =~= part_of(mi2, PartKind::Modified));
                assert(map_of(unmodified@) =~= part_of(mi2, PartKind::Unmodified));
                assert forall|k: Seq<char>| path_set(deleted@).contains(k) == deleted_part(mi2).contains(k) by {
                    if path_set(deleted@).contains(k) {
                        let j = choose|j: int| 0 <= j < deleted@.len() && #[trigger] deleted@[j]@ == k;
                        if j < before_d.len() {
                            assert(before_d[j]@ == k);
                            assert(path_set(before_d).contains(k));
                        }
                    }
                    if deleted_part(mi2).contains(k) && k != entry.0@ {
                        assert(deleted_part(mi).contains(k));
                        let j = choose|j: int| 0 <= j < before_d.len() && #[trigger] before_d[j]@ == k;
                        assert(deleted@[j]@ == k);
                    }
                    if deleted_part(mi2).contains(k) && k == entry.0@ {
                        assert(deleted@[before_d.len() as int]@ == k);
                    }
                }
                assert(path_set(deleted@) =~= deleted_part(mi2));
            }
            i = i + 1;
        }
        proof {
            assert(es.take(n as int) == es);
        }
        PileParts { created, modified, unmodified, deleted }
    }
}

/// The collections describe the pile: each holds that pile's entries of
/// its kind, with no path twice (what `Pile::to_parts` gives).
pub open spec fn parts_describe(parts: PileParts, v: Map<Seq<char>, ChangeView>) -> bool {
    &&& keys_distinct(parts.created@)
    &&& keys_distinct(parts.modified@)
    &&& keys_distinct(parts.unmodified@)
    &&& paths_distinct(parts.deleted@)
    &&& map_of(parts.created@) == part_of(v, PartKind::Created)
    &&& map_of(parts.modified@) == part_of(v, PartKind::Modified)
    &&& map_of(parts.unmodified@) == part_of(v, PartKind::Unmodified)
    &&& path_set(parts.deleted@) == deleted_part(v)
}

/// Collections that describe a pile are well formed and give that pile
/// back: storing a pile and reading it again yields an equal pile.
pub proof fn lemma_parts_describe_round_trip(parts: PileParts, v: Map<Seq<char>, ChangeView>)
    requires
        parts_describe(parts, v),
    ensures
        parts_valid(parts),
        parts_pile(parts) == v,
{
    lemma_parts_round_trip(v);
}

} // verus!
