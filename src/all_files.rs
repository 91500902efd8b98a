//! Enumeration of every file of a hoard, on either side.
//!
//! The walk keeps an explicit stack of paths to visit, seeded with the root
//! of each pile. Whoever drives it pops a path, looks at both sides of the
//! disk (is it a file or a directory, and which names a directory holds on
//! the system and in the hoard) and hands that back to [`AllFilesIter::visit`],
//! which yields the file or pushes the directory's children.

use vstd::prelude::*;
use crate::assoc::{keys_distinct, map_of};
use crate::config::{ConfigPile, HoardConfig};
use crate::filters::{FilterError, Filters, kept_by, strings_view};
use crate::paths::{HoardFile, HoardFileView, HoardPath, SystemPath, join, join_path};

verus! {

/// The path of a child, relative to the pile root, from its parent's.
pub open spec fn child_path(parent: Seq<char>, name: Seq<char>) -> Seq<char> {
    if parent.len() == 0 {
        name
    } else {
        parent + seq!['/'] + name
    }
}

/// A path still to visit, with the filters of its pile.
#[derive(Debug)]
pub struct RootPathItem {
    pub hoard_file: HoardFile,
    pub filters: Filters,
}

impl View for RootPathItem {
    type V = (HoardFileView, Seq<Seq<char>>);

    open spec fn view(&self) -> (HoardFileView, Seq<Seq<char>>) {
        (self.hoard_file@, self.filters@)
    }
}

impl RootPathItem {
    /// Whether the path is kept: it exists as a file or a directory on
    /// either side, and the filters of its pile keep it.
    pub fn keep(&self, is_file: bool, is_dir: bool) -> (r: bool)
        ensures
            r == ((is_file || is_dir) && kept_by(self.filters@, self.hoard_file.relative_path@)),
    {
        (is_file || is_dir) && self.filters.keep(&self.hoard_file.relative_path)
    }
}

/// `c` is the child of `parent` with the given name: same pile, roots and
/// filters, and the name appended to the relative path.
pub open spec fn is_child(c: RootPathItem, parent: RootPathItem, name: Seq<char>) -> bool {
    &&& c.filters@ == parent.filters@
    &&& c.hoard_file@.0 == parent.hoard_file@.0
    &&& c.hoard_file@.1 == parent.hoard_file@.1
    &&& c.hoard_file@.2 == parent.hoard_file@.2
    &&& c.hoard_file.relative_path@ == child_path(parent.hoard_file.relative_path@, name)
}

/// `c` is the child of `parent` for a name listed on either side.
pub open spec fn child_of_listed(c: RootPathItem, parent: RootPathItem, system_names: Seq<String>, hoard_names: Seq<String>) -> bool {
    exists|x: Seq<char>| (has_name(system_names, x) || has_name(hoard_names, x)) && #[trigger] is_child(c, parent, x)
}

/// Different names give different children.
pub proof fn lemma_child_path_injective(parent: Seq<char>, a: Seq<char>, b: Seq<char>)
    requires
        a != b,
    ensures
        child_path(parent, a) != child_path(parent, b),
{
    if parent.len() > 0 {
        let pa = parent + seq!['/'] + a;
        let pb = parent + seq!['/'] + b;
        if pa == pb {
            assert(pa.subrange(parent.len() as int + 1, pa.len() as int) =~= a);
            assert(pb.subrange(parent.len() as int + 1, pb.len() as int) =~= b);
        }
    }
}

/// Whether a list of strings holds a string with the given view.
pub open spec fn has_name(v: Seq<String>, x: Seq<char>) -> bool {
    exists|k: int| 0 <= k < v.len() && #[trigger] v[k]@ == x
}

/// The views of a list of strings are distinct.
pub open spec fn names_distinct(v: Seq<String>) -> bool {
    forall|a: int, b: int| 0 <= a < b < v.len() ==> v[a]@ != v[b]@
}

fn contains_name(v: &Vec<String>, x: &String) -> (r: bool)
    ensures
        r == has_name(v@, x@),
{
    let mut i: usize = 0;
    while i < v.len()
        invariant
            i <= v@.len(),
            forall|k: int| 0 <= k < i ==> v@[k]@ != x@,
        decreases v@.len() - i,
    {
        if v[i].eq(x) {
            return true;
        }
        i = i + 1;
    }
    false
}

/// Adds the names of `from` that `to` lacks.
fn add_names(to: &mut Vec<String>, from: &Vec<String>)
    requires
        names_distinct(old(to)@),
    ensures
        names_distinct(final(to)@),
        forall|x: Seq<char>| #[trigger] has_name(final(to)@, x) <==> (has_name(old(to)@, x) || has_name(from@, x)),
{
    let ghost start = to@;
    let mut i: usize = 0;
    while i < from.len()
        invariant
            i <= from@.len(),
            names_distinct(to@),
            forall|x: Seq<char>| #[trigger] has_name(to@, x) <==> (has_name(start, x) || has_name(from@.take(i as int), x)),
        decreases from@.len() - i,
    {
        let ghost before = to@;
        let found = contains_name(to, &from[i]);
        if !found {
            let name = from[i].clone();
            to.push(name);
        }
        proof {
            let t1 = from@.take(i as int + 1);
            let t0 = from@.take(i as int);
            assert(t1[i as int] == from@[i as int]);
            assert forall|x: Seq<char>| has_name(to@, x) implies (has_name(start, x) || has_name(t1, x)) by {
                let k = choose|k: int| 0 <= k < to@.len() && #[trigger] to@[k]@ == x;
                if k < before.len() {
                    assert(before[k]@ == x);
                    assert(has_name(before, x));
                    if has_name(t0, x) {
                        let k2 = choose|k2: int| 0 <= k2 < t0.len() && #[trigger] t0[k2]@ == x;
                        assert(t1[k2]@ == x);
                    }
                } else {
                    assert(t1[i as int]@ == x);
                }
            }
            assert forall|x: Seq<char>| (has_name(start, x) || has_name(t1, x)) implies has_name(to@, x) by {
                let in_before = has_name(before, x);
                if has_name(start, x) || has_name(t0, x) {
                    assert(has_name(before, x));
                }
                if in_before {
                    let k = choose|k: int| 0 <= k < before.len() && #[trigger] before[k]@ == x;
                    assert(to@[k]@ == x);
                } else if has_name(t1, x) {
                    let k = choose|k: int| 0 <= k < t1.len() && #[trigger] t1[k]@ == x;
                    if k < i {
                        assert(t0[k]@ == x);
                    } else if found {
                        assert(has_name(before, from@[i as int]@));
                    } else {
                        assert(to@[before.len() as int] == from@[i as int]);
                        assert(to@[before.len() as int]@ == x);
                    }
                }
            }
            assert forall|a: int, b: int| 0 <= a < b < to@.len() implies to@[a]@ != to@[b]@ by {
                if b == before.len() {
                    assert(to@[a] == before[a]);
                }
            }
        }
        i = i + 1;
    }
    proof {
        assert(from@.take(from@.len() as int) == from@);
    }
}

/// The walk over the files of one hoard.
#[derive(Debug)]
pub struct AllFilesIter {
    root_paths: Vec<RootPathItem>,
}

/// The root of a pile that the walk starts from.
pub open spec fn pile_root(
    hoards_root: Seq<char>,
    hoard_name: Seq<char>,
    pile_name: Option<Seq<char>>,
    path: Seq<char>,
) -> HoardFileView {
    match pile_name {
        None => (None, join_path(hoards_root, hoard_name), path, Seq::empty()),
        Some(n) => (Some(n), join_path(join_path(hoards_root, hoard_name), n), path, Seq::empty()),
    }
}

/// The item is the root of one of the named piles that has a path here,
/// with that pile's filters.
pub open spec fn root_of_a_pile(
    piles: Map<Seq<char>, crate::config::ConfigPileView>,
    hoards_root: Seq<char>,
    hoard_name: Seq<char>,
    item: (HoardFileView, Seq<Seq<char>>),
) -> bool {
    exists|n: Seq<char>| #[trigger] piles.contains_key(n) && piles[n].1 is Some
        && item == (pile_root(hoards_root, hoard_name, Some(n), piles[n].1->0), piles[n].2)
}

/// The item is the root of one of the first `i` piles, if that pile has a
/// path here, with that pile's filters.
pub open spec fn root_of_first(
    e: Seq<(String, ConfigPile)>,
    i: int,
    hoards_root: Seq<char>,
    hoard_name: Seq<char>,
    item: (HoardFileView, Seq<Seq<char>>),
) -> bool {
    exists|m: int| 0 <= m < i && (#[trigger] e[m].1.path) is Some
        && item == (pile_root(hoards_root, hoard_name, Some(e[m].0@), e[m].1.path->0@), strings_view(e[m].1.config.ignore@))
}

/// No two items of the stack belong to the same pile.
pub open spec fn one_per_pile(s: Seq<RootPathItem>) -> bool {
    forall|a: int, b: int| 0 <= a < b < s.len() ==> s[a].hoard_file@.0 != s[b].hoard_file@.0
}

/// The ignore patterns of a pile compile.
pub open spec fn pile_filters_compile(p: ConfigPile) -> bool {
    forall|i: int| 0 <= i < p.config.ignore@.len() ==> crate::filters::glob_compiles(#[trigger] p.config.ignore@[i]@)
}

/// Every pile's ignore patterns compile.
pub open spec fn all_filters_compile(hoard: &HoardConfig) -> bool {
    match hoard {
        HoardConfig::Anonymous(p) => pile_filters_compile(*p),
        HoardConfig::Named(piles) => forall|k: int|
            0 <= k < piles.entries().len() ==> #[trigger] pile_filters_compile(piles.entries()[k].1),
    }
}

/// The item for the root of one pile, if the pile has a path here.
fn root_item(
    hoard_prefix: String,
    pile_name: Option<String>,
    pile: &ConfigPile,
) -> (r: Result<Option<RootPathItem>, FilterError>)
    ensures
        r is Ok <==> pile_filters_compile(*pile),
        r matches Ok(Some(item)) ==> pile.path matches Some(p) && item.hoard_file.pile_name == pile_name
            && item.hoard_file.hoard_prefix.0@ == hoard_prefix@ && item.hoard_file.system_prefix.0@ == p@
            && item.hoard_file.relative_path@ == Seq::<char>::empty() && item.filters@ == strings_view(pile.config.ignore@),
        r matches Ok(None) ==> pile.path is None,
{
    let filters = match Filters::new(&pile.config) {
        Ok(f) => f,
        Err(e) => return Err(e),
    };
    match &pile.path {
        None => Ok(None),
        Some(path) => Ok(Some(RootPathItem {
            hoard_file: HoardFile::new(pile_name, HoardPath(hoard_prefix), SystemPath(path.clone()), String::new()),
            filters,
        })),
    }
}

impl AllFilesIter {
    /// The paths still to visit, the next one last.
    pub closed spec fn stack(&self) -> Seq<RootPathItem> {
        self.root_paths@
    }

    /// A walk over the hoard, starting from the root of each pile that has a
    /// path on this system. Fails if a pile's ignore pattern does not compile.
    pub fn new(hoards_root: &String, hoard_name: &String, hoard: &HoardConfig) -> (r: Result<AllFilesIter, FilterError>)
        ensures
            r is Ok <==> all_filters_compile(hoard),
            r matches Ok(it) ==> match hoard {
                HoardConfig::Anonymous(p) => (p.path matches Some(path) ==> it.stack().len() == 1
                    && it.stack()[0].hoard_file@ == pile_root(hoards_root@, hoard_name@, None, path@)
                    && it.stack()[0].filters@ == strings_view(p.config.ignore@))
                    && (p.path is None ==> it.stack().len() == 0),
                HoardConfig::Named(piles) => (forall|k: int| 0 <= k < it.stack().len() ==> #[trigger] root_of_a_pile(
                    piles@,
                    hoards_root@,
                    hoard_name@,
                    it.stack()[k]@,
                ))
                    && one_per_pile(it.stack())
                    && (forall|n: Seq<char>| #[trigger] piles@.contains_key(n) && piles@[n].1 is Some ==> exists|k: int|
                    0 <= k < it.stack().len() && it.stack()[k]@ == (pile_root(
                        hoards_root@,
                        hoard_name@,
                        Some(n),
                        piles@[n].1->0,
                    ), piles@[n].2)),
            },
    {
        let hoard_prefix = join(hoards_root, hoard_name);
        let mut root_paths: Vec<RootPathItem> = Vec::new();
        match hoard {
            HoardConfig::Anonymous(pile) => {
                match root_item(hoard_prefix, None, pile) {
                    Ok(Some(item)) => root_paths.push(item),
                    Ok(None) => {},
                    Err(e) => return Err(e),
                }
            },
            HoardConfig::Named(piles) => {
                let n = piles.len();
                let ghost e = piles.entries();
                let mut i: usize = 0;
                while i < n
                    invariant
                        n == e.len(),
                        e == piles.entries(),
                        keys_distinct(e),
                        map_of(e) == piles@,
                        i <= n,
                        hoard_prefix@ == join_path(hoards_root@, hoard_name@),
                        *hoard == HoardConfig::Named(*piles),
                        forall|k: int| 0 <= k < i ==> #[trigger] pile_filters_compile(e[k].1),
                        forall|k: int| 0 <= k < root_paths@.len() ==> #[trigger] root_of_first(
                            e,
                            i as int,
                            hoards_root@,
                            hoard_name@,
                            root_paths@[k]@,
                        ),
                        one_per_pile(root_paths@),
                        forall|m: int| 0 <= m < i && (#[trigger] e[m].1.path is Some) ==> exists|k: int|
                            0 <= k < root_paths@.len() && root_paths@[k]@ == (pile_root(
                                hoards_root@,
                                hoard_name@,
                                Some(e[m].0@),
                                e[m].1.path->0@,
                            ), strings_view(e[m].1.config.ignore@)),
                    decreases n - i,
                {
                    let entry = piles.entry(i);
                    let ghost before = root_paths@;
                    match root_item(join(&hoard_prefix, &entry.0), Some(entry.0.clone()), &entry.1) {
                        Ok(Some(item)) => {
                            root_paths.push(item);
                        },
                        Ok(None) => {},
                        Err(err) => {
                            proof {
                                assert(!pile_filters_compile(piles.entries()[i as int].1));
                                assert(!all_filters_compile(hoard));
                            }
                            return Err(err);
                        },
                    }
                    proof {
                        assert forall|k: int| 0 <= k < root_paths@.len() implies #[trigger] root_of_first(
                            e,
                            i + 1,
                            hoards_root@,
                            hoard_name@,
                            root_paths@[k]@,
                        ) by {
                            if k < before.len() {
                                assert(root_paths@[k] == before[k]);
                                assert(root_of_first(e, i as int, hoards_root@, hoard_name@, before[k]@));
                                let m = choose|m: int| 0 <= m < i && (#[trigger] e[m].1.path) is Some
                                    && before[k]@ == (pile_root(hoards_root@, hoard_name@, Some(e[m].0@), e[m].1.path->0@), strings_view(e[m].1.config.ignore@));
                                assert(e[m].1.path is Some);
                            } else {
                                assert(e[i as int].1.path is Some);
                            }
                        }
                        assert forall|a: int, b: int| 0 <= a < b < root_paths@.len() implies root_paths@[a].hoard_file@.0
                            != root_paths@[b].hoard_file@.0 by {
                            if b == before.len() {
                                assert(root_paths@[a] == before[a]);
                                assert(root_of_first(e, i as int, hoards_root@, hoard_name@, before[a]@));
                                let m = choose|m: int| 0 <= m < i && (#[trigger] e[m].1.path) is Some
                                    && before[a]@ == (pile_root(hoards_root@, hoard_name@, Some(e[m].0@), e[m].1.path->0@), strings_view(e[m].1.config.ignore@));
                                assert(e[m].0@ != e[i as int].0@);
                            } else {
                                assert(root_paths@[a] == before[a]);
                                assert(root_paths@[b] == before[b]);
                            }
                        }
                        assert forall|m: int| 0 <= m < i + 1 && (#[trigger] e[m].1.path is Some) implies exists|k: int|
                            0 <= k < root_paths@.len() && root_paths@[k]@ == (pile_root(
                                hoards_root@,
                                hoard_name@,
                                Some(e[m].0@),
                                e[m].1.path->0@,
                            ), strings_view(e[m].1.config.ignore@)) by {
                            if m < i {
                                let k = choose|k: int| 0 <= k < before.len() && before[k]@ == (pile_root(
                                    hoards_root@,
                                    hoard_name@,
                                    Some(e[m].0@),
                                    e[m].1.path->0@,
                                ), strings_view(e[m].1.config.ignore@));
                                assert(root_paths@[k] == before[k]);
                            } else {
                                assert(root_paths@[before.len() as int]@ == (pile_root(
                                    hoards_root@,
                                    hoard_name@,
                                    Some(e[m].0@),
                                    e[m].1.path->0@,
                                ), strings_view(e[m].1.config.ignore@)));
                            }
                        }
                    }
                    i = i + 1;
                }
                proof {
                    assert forall|k: int| 0 <= k < root_paths@.len() implies #[trigger] root_of_a_pile(
                        piles@,
                        hoards_root@,
                        hoard_name@,
                        root_paths@[k]@,
                    ) by {
                        assert(root_of_first(e, n as int, hoards_root@, hoard_name@, root_paths@[k]@));
                        let m = choose|m: int| 0 <= m < n && (#[trigger] e[m].1.path) is Some
                            && root_paths@[k]@ == (pile_root(hoards_root@, hoard_name@, Some(e[m].0@), e[m].1.path->0@), strings_view(e[m].1.config.ignore@));
                        crate::assoc::lemma_map_of_entry(e, m);
                        assert(piles@.contains_key(e[m].0@));
                    }
                    assert forall|x: Seq<char>| #[trigger] piles@.contains_key(x) && piles@[x].1 is Some implies exists|k: int|
                        0 <= k < root_paths@.len() && root_paths@[k]@ == (pile_root(
                            hoards_root@,
                            hoard_name@,
                            Some(x),
                            piles@[x].1->0,
                        ), piles@[x].2) by {
                        let m = crate::assoc::lemma_map_of_key(e, x);
                        crate::assoc::lemma_map_of_entry(e, m);
                        assert(e[m].1.path is Some);
                    }
                }
            },
        }
        Ok(AllFilesIter { root_paths })
    }

    /// The next path to visit, if any is left.
    pub fn pop(&mut self) -> (r: Option<RootPathItem>)
        ensures
            old(self).stack().len() == 0 ==> r is None && final(self).stack() == old(self).stack(),
            old(self).stack().len() > 0 ==> r == Some(old(self).stack().last()) && final(self).stack()
                == old(self).stack().drop_last(),
    {
        self.root_paths.pop()
    }

    /// Visits a popped path, given whether it is a file or a directory (on
    /// either side) and, for a directory, the names it holds on the system
    /// and in the hoard. A kept file is yielded; a kept directory pushes each
    /// name found on either side once.
    pub fn visit(
        &mut self,
        item: RootPathItem,
        is_file: bool,
        is_dir: bool,
        system_names: &Vec<String>,
        hoard_names: &Vec<String>,
    ) -> (r: Option<HoardFile>)
        ensures
            r is Some <==> is_file && kept_by(item.filters@, item.hoard_file.relative_path@),
            r matches Some(f) ==> f == item.hoard_file,
            !(is_dir && !is_file && kept_by(item.filters@, item.hoard_file.relative_path@)) ==> final(self).stack()
                == old(self).stack(),
            is_dir && !is_file && kept_by(item.filters@, item.hoard_file.relative_path@) ==> ({
                let old_len = old(self).stack().len();
                let pushed = final(self).stack().subrange(old_len as int, final(self).stack().len() as int);
                &&& final(self).stack().len() >= old_len
                &&& final(self).stack().subrange(0, old_len as int) == old(self).stack()
                &&& forall|k: int| 0 <= k < pushed.len() ==> #[trigger] child_of_listed(pushed[k], item, system_names@, hoard_names@)
                &&& forall|x: Seq<char>| (has_name(system_names@, x) || has_name(hoard_names@, x)) ==> exists|k: int|
                    0 <= k < pushed.len() && (#[trigger] pushed[k]).hoard_file.relative_path@ == child_path(
                        item.hoard_file.relative_path@,
                        x,
                    )
                &&& forall|a: int, b: int| 0 <= a < b < pushed.len() ==> pushed[a].hoard_file.relative_path@
                    != pushed[b].hoard_file.relative_path@
            }),
    {
        let kept = item.keep(is_file, is_dir);
        if !kept {
            return None;
        }
        if is_file {
            return Some(item.hoard_file);
        }
        let mut names: Vec<String> = Vec::new();
        add_names(&mut names, system_names);
        let ghost mid = names@;
        add_names(&mut names, hoard_names);
        proof {
            assert forall|x: Seq<char>| (has_name(system_names@, x) || has_name(hoard_names@, x)) implies has_name(names@, x) by {
                if has_name(system_names@, x) {
                    assert(has_name(mid, x));
                }
            }
            assert forall|x: Seq<char>| has_name(names@, x) implies (has_name(system_names@, x) || has_name(hoard_names@, x)) by {
                if has_name(mid, x) {
                    assert(!has_name(Seq::<String>::empty(), x));
                }
            }
        }
        let ghost old_stack = self.root_paths@;
        let ghost parent = item.hoard_file.relative_path@;
        let ghost fv = item.hoard_file@;
        let mut i: usize = 0;
        while i < names.len()
            invariant
                i <= names@.len(),
                names_distinct(names@),
                self.root_paths@.len() == old_stack.len() + i,
                self.root_paths@.subrange(0, old_stack.len() as int) == old_stack,
                fv == item.hoard_file@,
                parent == item.hoard_file.relative_path@,
                forall|k: int| 0 <= k < i ==> #[trigger] is_child(self.root_paths@[old_stack.len() + k], item, names@[k]@),
            decreases names@.len() - i,
        {
            let rel = if item.hoard_file.relative_path.as_str().unicode_len() == 0 {
                names[i].clone()
            } else {
                let mut p = item.hoard_file.relative_path.clone();
                p.append("/");
                p.append(names[i].as_str());
                proof {
                    reveal_strlit("/");
                    assert("/"@ =~= seq!['/']);
                }
                p
            };
            let pile_name = match &item.hoard_file.pile_name {
                Some(n) => Some(n.clone()),
                None => None,
            };
            let child = RootPathItem {
                hoard_file: HoardFile {
                    pile_name,
                    hoard_prefix: HoardPath(item.hoard_file.hoard_prefix.0.clone()),
                    system_prefix: SystemPath(item.hoard_file.system_prefix.0.clone()),
                    relative_path: rel,
                },
                filters: item.filters.duplicate(),
            };
            let ghost before = self.root_paths@;
            self.root_paths.push(child);
            proof {
                assert(is_child(self.root_paths@[old_stack.len() + i], item, names@[i as int]@));
                assert forall|k: int| 0 <= k < i + 1 implies #[trigger] is_child(self.root_paths@[old_stack.len() + k], item, names@[k]@) by {
                    if k < i {
                        assert(self.root_paths@[old_stack.len() + k] == before[old_stack.len() + k]);
                    }
                }
                assert(self.root_paths@.subrange(0, old_stack.len() as int) =~= old_stack);
            }
            i = i + 1;
        }
        proof {
            let stack = self.stack();
            assert(stack == self.root_paths@);
            let pushed = stack.subrange(old_stack.len() as int, stack.len() as int);
            assert forall|k: int| 0 <= k < pushed.len() implies is_child(#[trigger] pushed[k], item, names@[k]@) by {
                assert(pushed[k] == stack[old_stack.len() + k]);
            }
            assert forall|x: Seq<char>| (has_name(system_names@, x) || has_name(hoard_names@, x)) implies exists|k: int|
                0 <= k < pushed.len() && (#[trigger] pushed[k]).hoard_file.relative_path@ == child_path(parent, x) by {
                let k = choose|k: int| 0 <= k < names@.len() && #[trigger] names@[k]@ == x;
                assert(is_child(pushed[k], item, names@[k]@));
            }
            assert forall|k: int| 0 <= k < pushed.len() implies #[trigger] child_of_listed(pushed[k], item, system_names@, hoard_names@) by {
                let x = names@[k]@;
                assert(is_child(pushed[k], item, x));
                assert(has_name(names@, x));
                assert(has_name(system_names@, x) || has_name(hoard_names@, x));
            }
            assert forall|a: int, b: int| 0 <= a < b < pushed.len() implies pushed[a].hoard_file.relative_path@
                != pushed[b].hoard_file.relative_path@ by {
                assert(is_child(pushed[a], item, names@[a]@));
                assert(is_child(pushed[b], item, names@[b]@));
                lemma_child_path_injective(parent, names@[a]@, names@[b]@);
            }
            assert(stack.subrange(0, old_stack.len() as int) == old_stack);
        }
        None
    }
}

} // verus!
