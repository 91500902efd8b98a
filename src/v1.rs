//! The v1 operation log, which recorded only the files present after an
//! operation, each with its MD5 digest.

use vstd::prelude::*;
use crate::assoc::{AssocList, ViewKey, keys_distinct, map_of, lemma_map_of_take};
use crate::log::Timestamp;

verus! {

/// A file of a hoard: its pile name (`None` in an anonymous hoard) and its
/// path relative to the pile.
#[derive(Debug)]
pub struct PileFile {
    pub pile_name: Option<String>,
    pub relative_path: String,
}

/// What a [`PileFile`] is: the views of its pile name and of its path.
pub type FileKey = (Option<Seq<char>>, Seq<char>);

impl View for PileFile {
    type V = FileKey;

    open spec fn view(&self) -> FileKey {
        (
            match self.pile_name {
                Some(n) => Some(n@),
                None => None,
            },
            self.relative_path@,
        )
    }
}

impl ViewKey for PileFile {
    fn same_key(&self, other: &Self) -> (r: bool) {
        let same_pile = match &self.pile_name {
            Some(a) => match &other.pile_name {
                Some(b) => a.eq(b),
                None => false,
            },
            None => other.pile_name.is_none(),
        };
        same_pile && self.relative_path.eq(&other.relative_path)
    }

    fn copy_key(&self) -> (r: Self) {
        let pile_name = match &self.pile_name {
            Some(n) => Some(n.clone()),
            None => None,
        };
        PileFile { pile_name, relative_path: self.relative_path.clone() }
    }
}

/// The files of one pile in a v1 log: each relative path with its MD5 hex digest.
pub type PileV1 = AssocList<String, String>;

/// The files of a v1 log: one pile, or a pile per name.
#[derive(Debug)]
pub enum HoardV1 {
    Anonymous(PileV1),
    Named(AssocList<String, PileV1>),
}

/// What a [`HoardV1`] is.
pub enum HoardV1View {
    Anonymous(Map<Seq<char>, Seq<char>>),
    Named(Map<Seq<char>, Map<Seq<char>, Seq<char>>>),
}

impl View for HoardV1 {
    type V = HoardV1View;

    open spec fn view(&self) -> HoardV1View {
        match self {
            HoardV1::Anonymous(p) => HoardV1View::Anonymous(p@),
            HoardV1::Named(m) => HoardV1View::Named(m@),
        }
    }
}

/// The paths of one pile, keyed by pile name and path.
pub open spec fn keyed(name: Option<Seq<char>>, m: Map<Seq<char>, Seq<char>>) -> Map<FileKey, Seq<char>> {
    Map::new(|k: FileKey| k.0 == name && m.contains_key(k.1), |k: FileKey| m[k.1])
}

/// Every file a v1 log records as present, with its hex digest.
pub open spec fn v1_presence(h: HoardV1View) -> Map<FileKey, Seq<char>> {
    match h {
        HoardV1View::Anonymous(m) => keyed(None, m),
        HoardV1View::Named(nm) => Map::new(
            |k: FileKey| k.0 is Some && nm.contains_key(k.0->0) && nm[k.0->0].contains_key(k.1),
            |k: FileKey| nm[k.0->0][k.1],
        ),
    }
}

/// One operation log (format v1).
#[derive(Debug)]
pub struct OperationV1 {
    pub timestamp: Timestamp,
    pub is_backup: bool,
    pub hoard_name: String,
    pub hoard: HoardV1,
}

/// Appends the files of one pile, keyed by its name.
fn push_pile_files(out: &mut Vec<(PileFile, String)>, name: &Option<String>, pile: &PileV1)
    requires
        keys_distinct(old(out)@),
        forall|k: FileKey| #[trigger] map_of(old(out)@).contains_key(k) ==> k.0 != opt_view(name),
    ensures
        keys_distinct(final(out)@),
        map_of(final(out)@) == map_of(old(out)@).union_prefer_right(keyed(opt_view(name), pile@)),
{
    let n = pile.len();
    let ghost base = map_of(out@);
    let ghost e = pile.entries();
    let mut i: usize = 0;
    while i < n
        invariant
            n == e.len(),
            e == pile.entries(),
            keys_distinct(e),
            map_of(e) == pile@,
            i <= n,
            forall|k: FileKey| #[trigger] base.contains_key(k) ==> k.0 != opt_view(name),
            keys_distinct(out@),
            map_of(out@) == base.union_prefer_right(keyed(opt_view(name), map_of(e.take(i as int)))),
        decreases n - i,
    {
        let entry = pile.entry(i);
        let pile_name = match name {
            Some(s) => Some(s.clone()),
            None => None,
        };
        let key = PileFile { pile_name, relative_path: entry.0.clone() };
        proof {
            lemma_map_of_take(e, i as int);
            assert(!map_of(out@).contains_key(key@));
        }
        let ghost before = out@;
        out.push((key, entry.1.clone()));
        proof {
            assert(out@.drop_last() == before);
            assert(keys_distinct(out@)) by {
                assert forall|a: int, b: int| 0 <= a < b < out@.len() implies out@[a].0@ != out@[b].0@ by {
                    if b == out@.len() - 1 && out@[a].0@ == out@[b].0@ {
                        crate::assoc::lemma_map_of_entry(before, a);
                    }
                }
            }
            assert(map_of(out@) =~= base.union_prefer_right(
                keyed(opt_view(name), map_of(e.take(i as int + 1))),
            ));
        }
        i = i + 1;
    }
    proof {
        assert(e.take(n as int) == e);
    }
}

/// The view of an optional name.
pub open spec fn opt_view(n: &Option<String>) -> Option<Seq<char>> {
    match n {
        Some(s) => Some(s@),
        None => None,
    }
}

impl OperationV1 {
    /// Every file the log records, once, with its hex digest.
    pub fn all_files_with_checksums(&self) -> (r: Vec<(PileFile, String)>)
        ensures
            keys_distinct(r@),
            map_of(r@) == v1_presence(self.hoard@),
    {
        let mut out: Vec<(PileFile, String)> = Vec::new();
        match &self.hoard {
            HoardV1::Anonymous(pile) => {
                push_pile_files(&mut out, &None, pile);
                proof {
                    assert(map_of(out@) =~= v1_presence(self.hoard@));
                }
            },
            HoardV1::Named(piles) => {
                let n = piles.len();
                let ghost e = piles.entries();
                let mut i: usize = 0;
                while i < n
                    invariant
                        n == e.len(),
                        e == piles.entries(),
                        keys_distinct(e),
                        map_of(e) == piles@,
                        i <= n,
                        keys_distinct(out@),
                        map_of(out@) == v1_presence(HoardV1View::Named(map_of(e.take(i as int)))),
                    decreases n - i,
                {
                    let entry = piles.entry(i);
                    let name = Some(entry.0.clone());
                    proof {
                        lemma_map_of_take(e, i as int);
                    }
                    push_pile_files(&mut out, &name, &entry.1);
                    proof {
                        assert(map_of(out@) =~= v1_presence(
                            HoardV1View::Named(map_of(e.take(i as int + 1))),
                        ));
                    }
                    i = i + 1;
                }
                proof {
                    assert(e.take(n as int) == e);
                }
            },
        }
        out
    }
}

} // verus!
