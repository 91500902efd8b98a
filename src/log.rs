//! The v2 operation log: one backup or restore of one hoard, recorded per file.

use vstd::prelude::*;
use crate::assoc::{AssocList, ViewEq, keys_distinct, map_of, lemma_map_of_entry, lemma_map_of_key};
use crate::checksum::{Checksum, ChecksumView};

verus! {

/// The flow of data of an operation.
#[derive(Clone, Copy, Debug, PartialEq, Eq, Structural)]
pub enum Direction {
    /// From the system into the hoard.
    Backup,
    /// From the hoard onto the system.
    Restore,
}

/// A leap year of the Gregorian calendar.
pub open spec fn is_leap_year(year: int) -> bool {
    (year % 4 == 0 && year % 100 != 0) || year % 400 == 0
}

/// The number of days of a month (1 to 12) of a year.
pub open spec fn days_in_month(year: int, month: int) -> int {
    if month == 2 {
        if is_leap_year(year) {
            29
        } else {
            28
        }
    } else if month == 4 || month == 6 || month == 9 || month == 11 {
        30
    } else {
        31
    }
}

/// The number of days of a month (1 to 12) of a year.
pub fn month_length(year: u16, month: u8) -> (r: u8)
    ensures
        r == days_in_month(year as int, month as int),
{
    if month == 2 {
        if (year % 4 == 0 && year % 100 != 0) || year % 400 == 0 {
            29
        } else {
            28
        }
    } else if month == 4 || month == 6 || month == 9 || month == 11 {
        30
    } else {
        31
    }
}

/// A UTC instant with microsecond precision, as the log records it.
#[derive(Clone, Copy, Debug, PartialEq, Eq, Structural)]
pub struct Timestamp {
    year: u16,
    month: u8,
    day: u8,
    hour: u8,
    minute: u8,
    second: u8,
    microsecond: u32,
}

impl Timestamp {
    /// The fields lie in their ranges (the year has four digits).
    pub open spec fn valid_fields(
        year: u16,
        month: u8,
        day: u8,
        hour: u8,
        minute: u8,
        second: u8,
        microsecond: u32,
    ) -> bool {
        &&& year <= 9999
        &&& 1 <= month <= 12
        &&& 1 <= day <= days_in_month(year as int, month as int)
        &&& hour < 24
        &&& minute < 60
        &&& second < 60
        &&& microsecond < 1_000_000
    }

    #[verifier::type_invariant]
    spec fn inv(&self) -> bool {
        Self::valid_fields(
            self.year,
            self.month,
            self.day,
            self.hour,
            self.minute,
            self.second,
            self.microsecond,
        )
    }

    /// The fields as a tuple, most significant first.
    pub closed spec fn fields(&self) -> (u16, u8, u8, u8, u8, u8, u32) {
        (self.year, self.month, self.day, self.hour, self.minute, self.second, self.microsecond)
    }

    /// A timestamp from its fields, if they lie in their ranges.
    pub fn new(
        year: u16,
        month: u8,
        day: u8,
        hour: u8,
        minute: u8,
        second: u8,
        microsecond: u32,
    ) -> (r: Option<Timestamp>)
        ensures
            r is Some <==> Self::valid_fields(year, month, day, hour, minute, second, microsecond),
            r matches Some(t) ==> t.fields() == (year, month, day, hour, minute, second, microsecond),
    {
        if year <= 9999 && 1 <= month && month <= 12 && 1 <= day && day <= month_length(year, month) && hour < 24
            && minute < 60 && second < 60 && microsecond < 1_000_000 {
            Some(Timestamp { year, month, day, hour, minute, second, microsecond })
        } else {
            None
        }
    }

    /// The fields, most significant first.
    pub fn to_fields(&self) -> (r: (u16, u8, u8, u8, u8, u8, u32))
        ensures
            r == self.fields(),
            Self::valid_fields(r.0, r.1, r.2, r.3, r.4, r.5, r.6),
    {
        proof {
            use_type_invariant(self);
        }
        (self.year, self.month, self.day, self.hour, self.minute, self.second, self.microsecond)
    }
}

/// What an operation did to one file.
#[derive(Clone, Debug)]
pub enum FileChange {
    Created(Checksum),
    Modified(Checksum),
    Unmodified(Checksum),
    Deleted,
}

/// What a [`FileChange`] is, over checksum views.
pub enum ChangeView {
    Created(ChecksumView),
    Modified(ChecksumView),
    Unmodified(ChecksumView),
    Deleted,
}

impl View for FileChange {
    type V = ChangeView;

    open spec fn view(&self) -> ChangeView {
        match self {
            FileChange::Created(c) => ChangeView::Created(c@),
            FileChange::Modified(c) => ChangeView::Modified(c@),
            FileChange::Unmodified(c) => ChangeView::Unmodified(c@),
            FileChange::Deleted => ChangeView::Deleted,
        }
    }
}

/// The checksum a change records, if the file exists after it.
pub open spec fn checksum_after(c: ChangeView) -> Option<ChecksumView> {
    match c {
        ChangeView::Created(k) => Some(k),
        ChangeView::Modified(k) => Some(k),
        ChangeView::Unmodified(k) => Some(k),
        ChangeView::Deleted => None,
    }
}

/// The view of an optional checksum.
pub open spec fn opt_checksum_view(c: Option<Checksum>) -> Option<ChecksumView> {
    match c {
        Some(k) => Some(k@),
        None => None,
    }
}

impl FileChange {
    /// A copy that equals this change.
    pub fn duplicate(&self) -> (r: FileChange)
        ensures
            r@ == self@,
    {
        match self {
            FileChange::Created(c) => FileChange::Created(c.duplicate()),
            FileChange::Modified(c) => FileChange::Modified(c.duplicate()),
            FileChange::Unmodified(c) => FileChange::Unmodified(c.duplicate()),
            FileChange::Deleted => FileChange::Deleted,
        }
    }

    /// The checksum the change records, if the file exists after it.
    pub fn checksum(&self) -> (r: Option<Checksum>)
        ensures
            opt_checksum_view(r) == checksum_after(self@),
    {
        match self {
            FileChange::Created(c) => Some(c.duplicate()),
            FileChange::Modified(c) => Some(c.duplicate()),
            FileChange::Unmodified(c) => Some(c.duplicate()),
            FileChange::Deleted => None,
        }
    }
}

impl ViewEq for FileChange {
    fn view_eq(&self, other: &Self) -> (r: bool) {
        match self {
            FileChange::Created(a) => match other {
                FileChange::Created(b) => a.eq(b),
                _ => false,
            },
            FileChange::Modified(a) => match other {
                FileChange::Modified(b) => a.eq(b),
                _ => false,
            },
            FileChange::Unmodified(a) => match other {
                FileChange::Unmodified(b) => a.eq(b),
                _ => false,
            },
            FileChange::Deleted => match other {
                FileChange::Deleted => true,
                _ => false,
            },
        }
    }
}

/// The paths of a pile that an operation created.
pub open spec fn created_paths(p: Map<Seq<char>, ChangeView>) -> Set<Seq<char>> {
    p.dom().filter(|k: Seq<char>| p[k] is Created)
}

/// The paths of a pile that an operation modified.
pub open spec fn modified_paths(p: Map<Seq<char>, ChangeView>) -> Set<Seq<char>> {
    p.dom().filter(|k: Seq<char>| p[k] is Modified)
}

/// The paths of a pile that an operation left unmodified.
pub open spec fn unmodified_paths(p: Map<Seq<char>, ChangeView>) -> Set<Seq<char>> {
    p.dom().filter(|k: Seq<char>| p[k] is Unmodified)
}

/// The paths of a pile that an operation deleted.
pub open spec fn deleted_paths(p: Map<Seq<char>, ChangeView>) -> Set<Seq<char>> {
    p.dom().filter(|k: Seq<char>| p[k] is Deleted)
}

/// The files of one pile in one log: each relative path with what happened to it.
///
/// On disk a pile is four maps (created, modified, unmodified, deleted); here
/// each path holds exactly one of the four.
#[derive(Debug)]
pub struct Pile {
    files: AssocList<String, FileChange>,
}

impl View for Pile {
    type V = Map<Seq<char>, ChangeView>;

    closed spec fn view(&self) -> Map<Seq<char>, ChangeView> {
        self.files@
    }
}

/// In any pile, the created, modified, unmodified and deleted paths are
/// pairwise disjoint.
pub proof fn lemma_pile_kinds_disjoint(p: Map<Seq<char>, ChangeView>)
    ensures
        created_paths(p).disjoint(modified_paths(p)),
        created_paths(p).disjoint(unmodified_paths(p)),
        created_paths(p).disjoint(deleted_paths(p)),
        modified_paths(p).disjoint(unmodified_paths(p)),
        modified_paths(p).disjoint(deleted_paths(p)),
        unmodified_paths(p).disjoint(deleted_paths(p)),
{
}

impl Pile {
    /// A pile with no files.
    pub fn new() -> (r: Pile)
        ensures
            r@ == Map::<Seq<char>, ChangeView>::empty(),
    {
        Pile { files: AssocList::new() }
    }

    /// Records what happened to a path, replacing any earlier record of it.
    pub fn record(&mut self, path: String, change: FileChange)
        ensures
            final(self)@ == old(self)@.insert(path@, change@),
    {
        self.files.insert(path, change);
    }

    /// The files of the pile, each with its change.
    pub fn files(&self) -> (r: &AssocList<String, FileChange>)
        ensures
            r@ == self@,
    {
        &self.files
    }

    /// Whether the pile records the path; with `only_modified`, a path left
    /// unmodified does not count.
    pub fn contains_file(&self, rel_path: &String, only_modified: bool) -> (r: bool)
        ensures
            r == (self@.contains_key(rel_path@) && !(only_modified && self@[rel_path@] is Unmodified)),
    {
        match self.files.get(rel_path) {
            Some(FileChange::Unmodified(_)) => !only_modified,
            Some(_) => true,
            None => false,
        }
    }

    /// The checksum the pile records for the path, if the file existed after
    /// the operation.
    pub fn checksum_for(&self, rel_path: &String) -> (r: Option<Checksum>)
        ensures
            opt_checksum_view(r) == (if self@.contains_key(rel_path@) {
                checksum_after(self@[rel_path@])
            } else {
                None
            }),
    {
        match self.files.get(rel_path) {
            Some(change) => change.checksum(),
            None => None,
        }
    }

    /// Every path of the pile once, with its checksum (`None` when deleted).
    pub fn all_files_with_checksums(&self) -> (r: Vec<(String, Option<Checksum>)>)
        ensures
            r@.len() == self@.dom().len(),
            forall|i: int| 0 <= i < r@.len() ==> self@.contains_key(#[trigger] r@[i].0@)
                && opt_checksum_view(r@[i].1) == checksum_after(self@[r@[i].0@]),
            forall|k: Seq<char>| #[trigger] self@.contains_key(k) ==> exists|i: int|
                0 <= i < r@.len() && r@[i].0@ == k,
            forall|a: int, b: int| 0 <= a < b < r@.len() ==> r@[a].0@ != r@[b].0@,
    {
        let n = self.files.len();
        let mut r: Vec<(String, Option<Checksum>)> = Vec::new();
        let mut i: usize = 0;
        while i < n
            invariant
                n == self.files.entries().len(),
                keys_distinct(self.files.entries()),
                map_of(self.files.entries()) == self@,
                i <= n,
                r@.len() == i,
                forall|j: int| 0 <= j < i ==> (#[trigger] r@[j]).0@ == self.files.entries()[j].0@
                    && opt_checksum_view(r@[j].1) == checksum_after(self.files.entries()[j].1@),
            decreases n - i,
        {
            let e = self.files.entry(i);
            r.push((e.0.clone(), e.1.checksum()));
            i = i + 1;
        }
        proof {
            assert forall|j: int| 0 <= j < r@.len() implies self@.contains_key(#[trigger] r@[j].0@)
                && opt_checksum_view(r@[j].1) == checksum_after(self@[r@[j].0@]) by {
                lemma_map_of_entry(self.files.entries(), j);
            }
            assert forall|k: Seq<char>| #[trigger] self@.contains_key(k) implies exists|j: int|
                0 <= j < r@.len() && r@[j].0@ == k by {
                let j = lemma_map_of_key(self.files.entries(), k);
                assert(r@[j].0@ == k);
            }
            assert forall|a: int, b: int| 0 <= a < b < r@.len() implies r@[a].0@ != r@[b].0@ by {
                assert(r@[a].0@ == self.files.entries()[a].0@);
                assert(r@[b].0@ == self.files.entries()[b].0@);
            }
        }
        r
    }
}

impl ViewEq for Pile {
    fn view_eq(&self, other: &Self) -> (r: bool) {
        self.files.same_as(&other.files)
    }
}

impl PartialEq for Pile {
    fn eq(&self, other: &Pile) -> (r: bool)
        ensures
            r == (self@ == other@),
    {
        self.files.same_as(&other.files)
    }
}

impl vstd::std_specs::cmp::PartialEqSpecImpl for Pile {
    open spec fn obeys_eq_spec() -> bool {
        true
    }

    open spec fn eq_spec(&self, other: &Pile) -> bool {
        self@ == other@
    }
}

/// The files of a log: one pile for an anonymous hoard, or a pile per name.
#[derive(Debug)]
pub enum Hoard {
    Anonymous(Pile),
    Named(AssocList<String, Pile>),
}

/// What a [`Hoard`] is: pile views, by name for a named hoard.
pub enum HoardView {
    Anonymous(Map<Seq<char>, ChangeView>),
    Named(Map<Seq<char>, Map<Seq<char>, ChangeView>>),
}

impl View for Hoard {
    type V = HoardView;

    open spec fn view(&self) -> HoardView {
        match self {
            Hoard::Anonymous(p) => HoardView::Anonymous(p@),
            Hoard::Named(m) => HoardView::Named(m@),
        }
    }
}

/// The pile of a hoard that a pile name selects: `None` selects the pile of an
/// anonymous hoard, a name selects that pile of a named hoard.
pub open spec fn pile_of(h: HoardView, name: Option<Seq<char>>) -> Option<Map<Seq<char>, ChangeView>> {
    match (h, name) {
        (HoardView::Anonymous(p), None) => Some(p),
        (HoardView::Named(m), Some(n)) => if m.contains_key(n) {
            Some(m[n])
        } else {
            None
        },
        _ => None,
    }
}

/// The view of an optional name.
pub open spec fn opt_name_view(n: Option<&String>) -> Option<Seq<char>> {
    match n {
        Some(s) => Some(s@),
        None => None,
    }
}

impl Hoard {
    /// The pile that a pile name selects (see [`pile_of`]).
    pub fn get_pile(&self, name: Option<&String>) -> (r: Option<&Pile>)
        ensures
            r matches Some(p) ==> pile_of(self@, opt_name_view(name)) == Some(p@),
            r is None ==> pile_of(self@, opt_name_view(name)) is None,
    {
        match self {
            Hoard::Anonymous(p) => match name {
                None => Some(p),
                Some(_) => None,
            },
            Hoard::Named(m) => match name {
                Some(n) => m.get(n),
                None => None,
            },
        }
    }
}

impl ViewEq for Hoard {
    fn view_eq(&self, other: &Self) -> (r: bool) {
        match self {
            Hoard::Anonymous(a) => match other {
                Hoard::Anonymous(b) => a.view_eq(b),
                Hoard::Named(_) => false,
            },
            Hoard::Named(a) => match other {
                Hoard::Named(b) => a.same_as(b),
                Hoard::Anonymous(_) => false,
            },
        }
    }
}

/// One operation log (format v2).
#[derive(Debug)]
pub struct OperationV2 {
    pub timestamp: Timestamp,
    pub direction: Direction,
    pub hoard: String,
    pub files: Hoard,
}

/// The file information a log yields for one path.
#[derive(Debug)]
pub struct OperationFileInfo {
    pub pile_name: Option<String>,
    pub relative_path: String,
    pub checksum: Option<Checksum>,
}

impl OperationV2 {
    /// A log of the given operation.
    pub fn new(timestamp: Timestamp, direction: Direction, hoard: String, files: Hoard) -> (r: OperationV2)
        ensures
            r.timestamp == timestamp,
            r.direction == direction,
            r.hoard@ == hoard@,
            r.files@ == files@,
    {
        OperationV2 { timestamp, direction, hoard, files }
    }

    /// The direction of the operation.
    pub fn direction(&self) -> (r: Direction)
        ensures
            r == self.direction,
    {
        self.direction
    }

    /// The time of the operation.
    pub fn timestamp(&self) -> (r: Timestamp)
        ensures
            r == self.timestamp,
    {
        self.timestamp
    }

    /// The name of the hoard the operation was on.
    pub fn hoard_name(&self) -> (r: &String)
        ensures
            r@ == self.hoard@,
    {
        &self.hoard
    }

    /// Whether the log records the file; with `only_modified`, a file left
    /// unmodified does not count.
    pub fn contains_file(&self, pile_name: Option<&String>, rel_path: &String, only_modified: bool) -> (r: bool)
        ensures
            r == (pile_of(self.files@, opt_name_view(pile_name)) matches Some(p) && p.contains_key(rel_path@)
                && !(only_modified && p[rel_path@] is Unmodified)),
    {
        match self.files.get_pile(pile_name) {
            Some(pile) => pile.contains_file(rel_path, only_modified),
            None => false,
        }
    }

    /// The checksum the log records for the file, if it existed after the operation.
    pub fn checksum_for(&self, pile_name: Option<&String>, rel_path: &String) -> (r: Option<Checksum>)
        ensures
            opt_checksum_view(r) == (match pile_of(self.files@, opt_name_view(pile_name)) {
                Some(p) => if p.contains_key(rel_path@) {
                    checksum_after(p[rel_path@])
                } else {
                    None
                },
                None => None,
            }),
    {
        match self.files.get_pile(pile_name) {
            Some(pile) => pile.checksum_for(rel_path),
            None => None,
        }
    }
}

/// The info records a file that the log's files hold, with its checksum.
pub open spec fn info_in(h: HoardView, pile_name: Option<Seq<char>>, path: Seq<char>, checksum: Option<ChecksumView>) -> bool {
    pile_of(h, pile_name) matches Some(p) && p.contains_key(path) && checksum == checksum_after(p[path])
}

/// The log's files hold the path in the pile that the name selects.
pub open spec fn holds_file(h: HoardView, pile_name: Option<Seq<char>>, path: Seq<char>) -> bool {
    pile_of(h, pile_name) matches Some(p) && p.contains_key(path)
}

/// The view of the pile name of an info.
pub open spec fn info_pile(i: OperationFileInfo) -> Option<Seq<char>> {
    match i.pile_name {
        Some(n) => Some(n@),
        None => None,
    }
}

/// Appends the files of one pile, under the given pile name.
fn push_pile_infos(out: &mut Vec<OperationFileInfo>, name: &Option<String>, pile: &Pile)
    ensures
        final(out)@.len() >= old(out)@.len(),
        forall|i: int| 0 <= i < old(out)@.len() ==> final(out)@[i] == old(out)@[i],
        forall|i: int| old(out)@.len() <= i < final(out)@.len() ==> info_pile(#[trigger] final(out)@[i]) == (match name {
            Some(n) => Some(n@),
            None => None::<Seq<char>>,
        }) && pile@.contains_key(final(out)@[i].relative_path@) && opt_checksum_view(final(out)@[i].checksum)
            == checksum_after(pile@[final(out)@[i].relative_path@]),
        forall|k: Seq<char>| #[trigger] pile@.contains_key(k) ==> exists|i: int|
            old(out)@.len() <= i < final(out)@.len() && final(out)@[i].relative_path@ == k,
        forall|a: int, b: int| old(out)@.len() <= a < b < final(out)@.len() ==> final(out)@[a].relative_path@
            != final(out)@[b].relative_path@,
{
    let files = pile.all_files_with_checksums();
    let ghost start = out@.len();
    let mut j: usize = 0;
    while j < files.len()
        invariant
            j <= files@.len(),
            out@.len() == start + j,
            start == old(out)@.len(),
            forall|i: int| 0 <= i < start ==> out@[i] == old(out)@[i],
            forall|i: int| 0 <= i < j ==> (#[trigger] out@[start + i]).relative_path@ == files@[i].0@
                && info_pile(out@[start + i]) == (match name {
                    Some(n) => Some(n@),
                    None => None::<Seq<char>>,
                }) && opt_checksum_view(out@[start + i].checksum) == opt_checksum_view(files@[i].1),
        decreases files@.len() - j,
    {
        let pile_name = match name {
            Some(n) => Some(n.clone()),
            None => None,
        };
        let checksum = match &files[j].1 {
            Some(c) => Some(c.duplicate()),
            None => None,
        };
        let ghost before = out@;
        out.push(OperationFileInfo { pile_name, relative_path: files[j].0.clone(), checksum });
        proof {
            assert forall|i: int| 0 <= i < j + 1 implies (#[trigger] out@[start + i]).relative_path@ == files@[i].0@
                && info_pile(out@[start + i]) == (match name {
                    Some(n) => Some(n@),
                    None => None::<Seq<char>>,
                }) && opt_checksum_view(out@[start + i].checksum) == opt_checksum_view(files@[i].1) by {
                if i < j {
                    assert(out@[start + i] == before[start + i]);
                }
            }
        }
        j = j + 1;
    }
    proof {
        assert forall|i: int| start <= i < out@.len() implies info_pile(#[trigger] out@[i]) == (match name {
            Some(n) => Some(n@),
            None => None::<Seq<char>>,
        }) && pile@.contains_key(out@[i].relative_path@) && opt_checksum_view(out@[i].checksum)
            == checksum_after(pile@[out@[i].relative_path@]) by {
            assert(out@[start + (i - start)] == out@[i]);
        }
        assert forall|k: Seq<char>| #[trigger] pile@.contains_key(k) implies exists|i: int|
            start <= i < out@.len() && out@[i].relative_path@ == k by {
            let m = choose|m: int| 0 <= m < files@.len() && files@[m].0@ == k;
            assert(out@[start + m].relative_path@ == k);
        }
        assert forall|a: int, b: int| start <= a < b < out@.len() implies out@[a].relative_path@
            != out@[b].relative_path@ by {
            assert(out@[start + (a - start)] == out@[a]);
            assert(out@[start + (b - start)] == out@[b]);
        }
    }
}

/// The name is that of one of the first `i` piles.
pub open spec fn named_among(e: Seq<(String, Pile)>, i: int, name: Option<Seq<char>>) -> bool {
    exists|m: int| 0 <= m < i && name == Some(#[trigger] e[m].0@)
}

/// No file is listed twice.
pub open spec fn infos_distinct(r: Seq<OperationFileInfo>) -> bool {
    forall|a: int, b: int| 0 <= a < b < r.len() ==> !(info_pile(r[a]) == info_pile(r[b])
        && r[a].relative_path@ == r[b].relative_path@)
}

impl OperationV2 {
    /// Every file the log records, once, with its pile name and checksum
    /// (`None` when deleted).
    pub fn all_files_with_checksums(&self) -> (r: Vec<OperationFileInfo>)
        ensures
            forall|i: int| 0 <= i < r@.len() ==> #[trigger] info_in(
                self.files@,
                info_pile(r@[i]),
                r@[i].relative_path@,
                opt_checksum_view(r@[i].checksum),
            ),
            forall|n: Option<Seq<char>>, k: Seq<char>| #[trigger] holds_file(self.files@, n, k) ==> exists|i: int| 0 <= i < r@.len() && info_pile(r@[i]) == n && r@[i].relative_path@ == k,
            infos_distinct(r@),
    {
        let mut out: Vec<OperationFileInfo> = Vec::new();
        match &self.files {
            Hoard::Anonymous(pile) => {
                push_pile_infos(&mut out, &None, pile);
                proof {
                    assert forall|i: int| 0 <= i < out@.len() implies #[trigger] info_in(
                        self.files@,
                        info_pile(out@[i]),
                        out@[i].relative_path@,
                        opt_checksum_view(out@[i].checksum),
                    ) by {
                        assert(info_pile(out@[i]) == None::<Seq<char>>);
                    }
                    assert forall|n: Option<Seq<char>>, k: Seq<char>| #[trigger] holds_file(self.files@, n, k) implies exists|i: int|
                        0 <= i < out@.len() && info_pile(out@[i]) == n && out@[i].relative_path@ == k by {
                        assert(pile@.contains_key(k));
                        let i = choose|i: int| 0 <= i < out@.len() && out@[i].relative_path@ == k;
                        assert(info_pile(out@[i]) == None::<Seq<char>>);
                    }
                }
            },
            Hoard::Named(piles) => {
                let n = piles.len();
                let ghost e = piles.entries();
                let mut i: usize = 0;
                while i < n
                    invariant
                        n == e.len(),
                        e == piles.entries(),
                        keys_distinct(e),
                        map_of(e) == piles@,
                        self.files@ == HoardView::Named(piles@),
                        i <= n,
                        infos_distinct(out@),
                        forall|x: int| 0 <= x < out@.len() ==> #[trigger] named_among(e, i as int, info_pile(out@[x])),
                        forall|x: int| 0 <= x < out@.len() ==> #[trigger] info_in(
                            self.files@,
                            info_pile(out@[x]),
                            out@[x].relative_path@,
                            opt_checksum_view(out@[x].checksum),
                        ),
                        forall|m: int, k: Seq<char>| 0 <= m < i && #[trigger] e[m].1@.contains_key(k) ==> exists|x: int|
                            0 <= x < out@.len() && info_pile(out@[x]) == Some(e[m].0@) && out@[x].relative_path@ == k,
                    decreases n - i,
                {
                    let entry = piles.entry(i);
                    let name = Some(entry.0.clone());
                    let ghost before = out@;
                    proof {
                        lemma_map_of_entry(e, i as int);
                    }
                    push_pile_infos(&mut out, &name, &entry.1);
                    proof {
                        assert forall|x: int| 0 <= x < out@.len() implies #[trigger] info_in(
                            self.files@,
                            info_pile(out@[x]),
                            out@[x].relative_path@,
                            opt_checksum_view(out@[x].checksum),
                        ) by {
                            if x < before.len() {
                                assert(out@[x] == before[x]);
                            }
                        }
                        assert forall|m: int, k: Seq<char>| 0 <= m < i + 1 && #[trigger] e[m].1@.contains_key(k) implies exists|x: int|
                            0 <= x < out@.len() && info_pile(out@[x]) == Some(e[m].0@) && out@[x].relative_path@ == k by {
                            if m < i {
                                let x = choose|x: int| 0 <= x < before.len() && info_pile(before[x]) == Some(e[m].0@)
                                    && before[x].relative_path@ == k;
                                assert(out@[x] == before[x]);
                            } else {
                                assert(entry.1@.contains_key(k));
                            }
                        }
                        assert forall|x: int| 0 <= x < out@.len() implies #[trigger] named_among(e, i + 1, info_pile(out@[x])) by {
                            if x < before.len() {
                                assert(out@[x] == before[x]);
                                assert(named_among(e, i as int, info_pile(before[x])));
                                let m = choose|m: int| 0 <= m < i && info_pile(before[x]) == Some(#[trigger] e[m].0@);
                                assert(info_pile(out@[x]) == Some(e[m].0@));
                            } else {
                                assert(info_pile(out@[x]) == Some(e[i as int].0@));
                            }
                        }
                        assert forall|a: int, b: int| 0 <= a < b < out@.len() implies !(info_pile(out@[a]) == info_pile(out@[b])
                            && out@[a].relative_path@ == out@[b].relative_path@) by {
                            if b >= before.len() && a < before.len() {
                                assert(out@[a] == before[a]);
                                assert(named_among(e, i as int, info_pile(before[a])));
                                let m = choose|m: int| 0 <= m < i && info_pile(before[a]) == Some(#[trigger] e[m].0@);
                                assert(e[m].0@ != e[i as int].0@);
                            } else if b < before.len() {
                                assert(out@[a] == before[a]);
                                assert(out@[b] == before[b]);
                            }
                        }
                    }
                    i = i + 1;
                }
                proof {
                    assert forall|nm: Option<Seq<char>>, k: Seq<char>| #[trigger] holds_file(self.files@, nm, k) implies exists|x: int|
                        0 <= x < out@.len() && info_pile(out@[x]) == nm && out@[x].relative_path@ == k by {
                        let name = nm->0;
                        let m = lemma_map_of_key(e, name);
                        lemma_map_of_entry(e, m);
                        assert(e[m].1@.contains_key(k));
                    }
                }
            },
        }
        out
    }
}

impl PartialEq for OperationV2 {
    fn eq(&self, other: &OperationV2) -> (r: bool)
        ensures
            r == (self.timestamp == other.timestamp && self.direction == other.direction
                && self.hoard@ == other.hoard@ && self.files@ == other.files@),
    {
        self.timestamp == other.timestamp && self.direction == other.direction
            && self.hoard.eq(&other.hoard) && self.files.view_eq(&other.files)
    }
}

impl vstd::std_specs::cmp::PartialEqSpecImpl for OperationV2 {
    open spec fn obeys_eq_spec() -> bool {
        true
    }

    open spec fn eq_spec(&self, other: &OperationV2) -> bool {
        self.timestamp == other.timestamp && self.direction == other.direction
            && self.hoard@ == other.hoard@ && self.files@ == other.files@
    }
}

} // verus!
