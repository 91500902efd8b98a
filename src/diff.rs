//! Classifying how one file differs between the system and the hoard, and
//! where the change was made, from both sides' contents and the logs.

use vstd::prelude::*;
use crate::checksum::{Checksum, ChecksumView};
use crate::log::opt_checksum_view;
use crate::paths::HoardFile;
use crate::translate::{DiffSource, HoardFileDiff};

verus! {

/// How a file differs, without the details.
#[derive(Clone, Copy, Debug, PartialEq, Eq, Structural)]
pub enum DiffKind {
    BinaryModified,
    TextModified,
    PermissionsModified,
    Created,
    Recreated,
    Deleted,
    Unchanged,
}

/// Everything known about one file of a hoard. A checksum is `None` where
/// the file is absent; `last_local` is what the latest log of this system
/// that mentions the file recorded for it after that operation (`Some(None)`
/// for a deletion), and `last_remote` the same for the other systems.
#[derive(Debug)]
pub struct FileState {
    pub file: HoardFile,
    pub system_checksum: Option<Checksum>,
    pub hoard_checksum: Option<Checksum>,
    pub system_perms: u32,
    pub hoard_perms: u32,
    /// Both sides are text.
    pub both_text: bool,
    /// A line diff from the hoard to the system, for text files.
    pub unified_diff: String,
    pub last_local: Option<Option<Checksum>>,
    pub last_remote: Option<Option<Checksum>>,
}

/// The view of a recorded checksum.
pub open spec fn recorded_view(r: Option<Option<Checksum>>) -> Option<Option<ChecksumView>> {
    match r {
        Some(c) => Some(opt_checksum_view(c)),
        None => None,
    }
}

/// The state this system last knew the file in: what its latest log
/// recorded, or absent when no log of it mentions the file.
pub open spec fn prior_state(s: FileState) -> Option<ChecksumView> {
    match recorded_view(s.last_local) {
        Some(c) => c,
        None => None,
    }
}

/// The system's content differs from the prior state.
pub open spec fn local_changed(s: FileState) -> bool {
    opt_checksum_view(s.system_checksum) != prior_state(s)
}

/// The hoard's content differs from the prior state.
pub open spec fn hoard_changed(s: FileState) -> bool {
    opt_checksum_view(s.hoard_checksum) != prior_state(s)
}

/// Another system's latest log recorded the hoard's current content.
pub open spec fn remote_recorded(s: FileState) -> bool {
    recorded_view(s.last_remote) == Some(opt_checksum_view(s.hoard_checksum))
}

/// Where the change was made.
pub open spec fn source_of(s: FileState) -> DiffSource {
    if local_changed(s) && !hoard_changed(s) {
        DiffSource::Local
    } else if hoard_changed(s) && remote_recorded(s) {
        if local_changed(s) {
            DiffSource::Mixed
        } else {
            DiffSource::Remote
        }
    } else {
        DiffSource::Unknown
    }
}

/// The file was deleted in the prior state.
pub open spec fn deleted_before(s: FileState) -> bool {
    recorded_view(s.last_local) == Some(None::<ChecksumView>)
}

/// A file that exists on one side only was created (or recreated) when the
/// side that changed it holds it, deleted otherwise.
pub open spec fn one_side_kind(s: FileState) -> DiffKind {
    let on_system = s.system_checksum is Some;
    let created = match source_of(s) {
        DiffSource::Local | DiffSource::Mixed => on_system,
        DiffSource::Remote | DiffSource::Unknown => !on_system,
    };
    if !created {
        DiffKind::Deleted
    } else if deleted_before(s) {
        DiffKind::Recreated
    } else {
        DiffKind::Created
    }
}

/// How the file differs.
pub open spec fn kind_of(s: FileState) -> DiffKind {
    match (opt_checksum_view(s.system_checksum), opt_checksum_view(s.hoard_checksum)) {
        (Some(a), Some(b)) => if a != b {
            if s.both_text {
                DiffKind::TextModified
            } else {
                DiffKind::BinaryModified
            }
        } else if s.system_perms != s.hoard_perms {
            DiffKind::PermissionsModified
        } else {
            DiffKind::Unchanged
        },
        (None, None) => DiffKind::Unchanged,
        _ => one_side_kind(s),
    }
}

/// The kind of a difference.
pub open spec fn diff_kind(d: HoardFileDiff) -> DiffKind {
    match d {
        HoardFileDiff::BinaryModified { .. } => DiffKind::BinaryModified,
        HoardFileDiff::TextModified { .. } => DiffKind::TextModified,
        HoardFileDiff::PermissionsModified { .. } => DiffKind::PermissionsModified,
        HoardFileDiff::Created { .. } => DiffKind::Created,
        HoardFileDiff::Recreated { .. } => DiffKind::Recreated,
        HoardFileDiff::Deleted { .. } => DiffKind::Deleted,
        HoardFileDiff::Unchanged(_) => DiffKind::Unchanged,
    }
}

/// The source a difference names; permissions, which no log records, are
/// an unknown change, and an unchanged file names none.
pub open spec fn diff_source_of(d: HoardFileDiff) -> Option<DiffSource> {
    match d {
        HoardFileDiff::BinaryModified { diff_source, .. } => Some(diff_source),
        HoardFileDiff::TextModified { diff_source, .. } => Some(diff_source),
        HoardFileDiff::PermissionsModified { diff_source, .. } => Some(diff_source),
        HoardFileDiff::Created { diff_source, .. } => Some(diff_source),
        HoardFileDiff::Recreated { diff_source, .. } => Some(diff_source),
        HoardFileDiff::Deleted { diff_source, .. } => Some(diff_source),
        HoardFileDiff::Unchanged(_) => None,
    }
}

fn recorded_eq(r: &Option<Option<Checksum>>, c: &Option<Checksum>) -> (b: bool)
    ensures
        b == (recorded_view(*r) == Some(opt_checksum_view(*c))),
{
    match r {
        Some(rc) => opt_eq(rc, c),
        None => false,
    }
}

fn opt_eq(a: &Option<Checksum>, b: &Option<Checksum>) -> (r: bool)
    ensures
        r == (opt_checksum_view(*a) == opt_checksum_view(*b)),
{
    match a {
        Some(x) => match b {
            Some(y) => x.eq(y),
            None => false,
        },
        None => b.is_none(),
    }
}

fn prior_eq(s: &FileState, c: &Option<Checksum>) -> (r: bool)
    ensures
        r == (opt_checksum_view(*c) == prior_state(*s)),
{
    match &s.last_local {
        Some(rc) => opt_eq(c, rc),
        None => c.is_none(),
    }
}

/// Classifies one file: how it differs between the system and the hoard,
/// and where the change was made.
pub fn classify(s: FileState) -> (r: HoardFileDiff)
    ensures
        diff_kind(r) == kind_of(s),
        r.file() == s.file,
        diff_kind(r) == DiffKind::PermissionsModified ==> diff_source_of(r) == Some(DiffSource::Unknown),
        diff_kind(r) != DiffKind::PermissionsModified && diff_kind(r) != DiffKind::Unchanged ==> diff_source_of(r)
            == Some(source_of(s)),
        r matches HoardFileDiff::TextModified { unified_diff, .. } ==> unified_diff == s.unified_diff,
        r matches HoardFileDiff::PermissionsModified { hoard_perms, system_perms, .. } ==> hoard_perms
            == s.hoard_perms && system_perms == s.system_perms,
{
    let local = !prior_eq(&s, &s.system_checksum);
    let hoard = !prior_eq(&s, &s.hoard_checksum);
    let remote = recorded_eq(&s.last_remote, &s.hoard_checksum);
    let source = if local && !hoard {
        DiffSource::Local
    } else if hoard && remote {
        if local {
            DiffSource::Mixed
        } else {
            DiffSource::Remote
        }
    } else {
        DiffSource::Unknown
    };
    let deleted_before = match &s.last_local {
        Some(c) => c.is_none(),
        None => false,
    };
    let on_system = s.system_checksum.is_some();
    let on_hoard = s.hoard_checksum.is_some();
    if on_system && on_hoard {
        if !opt_eq(&s.system_checksum, &s.hoard_checksum) {
            if s.both_text {
                HoardFileDiff::TextModified { file: s.file, unified_diff: s.unified_diff, diff_source: source }
            } else {
                HoardFileDiff::BinaryModified { file: s.file, diff_source: source }
            }
        } else if s.system_perms != s.hoard_perms {
            HoardFileDiff::PermissionsModified {
                file: s.file,
                hoard_perms: s.hoard_perms,
                system_perms: s.system_perms,
                diff_source: DiffSource::Unknown,
            }
        } else {
            HoardFileDiff::Unchanged(s.file)
        }
    } else if !on_system && !on_hoard {
        HoardFileDiff::Unchanged(s.file)
    } else {
        let created = match source {
            DiffSource::Local | DiffSource::Mixed => on_system,
            DiffSource::Remote | DiffSource::Unknown => !on_system,
        };
        if !created {
            HoardFileDiff::Deleted { file: s.file, diff_source: source }
        } else if deleted_before {
            HoardFileDiff::Recreated { file: s.file, diff_source: source }
        } else {
            HoardFileDiff::Created { file: s.file, diff_source: source }
        }
    }
}

/// A file whose two sides hold the same content with the same permissions
/// (as right after a backup of an unchanged file) is unchanged, whatever the
/// logs say.
pub proof fn lemma_equal_sides_are_unchanged(s: FileState)
    requires
        opt_checksum_view(s.system_checksum) == opt_checksum_view(s.hoard_checksum),
        s.system_perms == s.hoard_perms,
    ensures
        kind_of(s) == DiffKind::Unchanged,
{
}

/// The line diff, from the hoard's text to the system's, that
/// `similar::TextDiff::from_lines(..).unified_diff()` prints.
pub uninterp spec fn unified_diff_of(hoard: Seq<char>, system: Seq<char>) -> Seq<char>;

/// Relies on similar::TextDiff::from_lines and its unified diff with default
/// options: the text depends on the two inputs alone.
#[verifier::external_body]
fn line_diff(hoard: &str, system: &str) -> (r: String)
    ensures
        r@ == unified_diff_of(hoard@, system@),
{
    similar::TextDiff::from_lines(hoard, system).unified_diff().to_string()
}

/// Relies on std::str::from_utf8: it succeeds exactly on valid UTF-8.
#[verifier::external_body]
fn utf8_ok(bytes: &[u8]) -> (r: bool)
    ensures
        r == vstd::utf8::valid_utf8(bytes@),
{
    std::str::from_utf8(bytes).is_ok()
}

/// How many leading bytes decide whether a file is text.
pub const TEXT_PROBE_LEN: usize = 8192;

/// The leading bytes that decide whether a file is text.
pub open spec fn text_probe(head: Seq<u8>) -> Seq<u8> {
    if head.len() <= TEXT_PROBE_LEN {
        head
    } else {
        head.take(TEXT_PROBE_LEN as int)
    }
}

/// A file is text when its first 8 KiB hold no NUL byte and are valid UTF-8.
pub open spec fn is_text_head(head: Seq<u8>) -> bool {
    &&& forall|i: int| 0 <= i < text_probe(head).len() ==> #[trigger] text_probe(head)[i] != 0
    &&& vstd::utf8::valid_utf8(text_probe(head))
}

/// Whether a file whose contents start with `head` is text.
pub fn is_text(head: &[u8]) -> (r: bool)
    ensures
        r == is_text_head(head@),
{
    let n = if head.len() <= TEXT_PROBE_LEN {
        head.len()
    } else {
        TEXT_PROBE_LEN
    };
    let mut probe: Vec<u8> = Vec::new();
    let mut i: usize = 0;
    while i < n
        invariant
            n <= head@.len(),
            n == text_probe(head@).len(),
            i <= n,
            probe@ == head@.take(i as int),
            forall|j: int| 0 <= j < i ==> head@[j] != 0,
        decreases n - i,
    {
        if head[i] == 0 {
            proof {
                assert(text_probe(head@)[i as int] == head@[i as int]);
            }
            return false;
        }
        probe.push(head[i]);
        proof {
            assert(probe@ =~= head@.take(i as int + 1));
        }
        i = i + 1;
    }
    proof {
        assert(probe@ =~= text_probe(head@));
    }
    utf8_ok(probe.as_slice())
}

/// What is known of one side of a file that exists there: its checksum,
/// its permissions, and its text when it is a text file.
#[derive(Debug)]
pub struct SideContent {
    pub checksum: Checksum,
    pub perms: u32,
    pub text: Option<String>,
}

/// The views of an optional side's checksum.
pub open spec fn side_checksum(s: Option<SideContent>) -> Option<ChecksumView> {
    match s {
        Some(c) => Some(c.checksum@),
        None => None,
    }
}

/// The side exists and holds text.
pub open spec fn side_is_text(s: Option<SideContent>) -> bool {
    match s {
        Some(c) => c.text is Some,
        None => false,
    }
}

impl FileState {
    /// The state of a file from what is found on each side and what the logs
    /// last recorded. Both sides count as text when both hold text; the line
    /// diff is computed only then, and only when the contents differ.
    pub fn new(
        file: HoardFile,
        system: Option<SideContent>,
        hoard: Option<SideContent>,
        last_local: Option<Option<Checksum>>,
        last_remote: Option<Option<Checksum>>,
    ) -> (r: FileState)
        ensures
            r.file == file,
            opt_checksum_view(r.system_checksum) == side_checksum(system),
            opt_checksum_view(r.hoard_checksum) == side_checksum(hoard),
            r.last_local == last_local,
            r.last_remote == last_remote,
            r.both_text == (side_is_text(system) && side_is_text(hoard)),
            side_is_text(system) && side_is_text(hoard) && side_checksum(system) != side_checksum(hoard)
                ==> r.unified_diff@ == unified_diff_of(hoard->0.text->0@, system->0.text->0@),
            system is Some ==> r.system_perms == system->0.perms,
            hoard is Some ==> r.hoard_perms == hoard->0.perms,
            system is None ==> r.system_perms == r.hoard_perms,
            hoard is None ==> r.hoard_perms == r.system_perms,
    {
        let mut unified_diff = String::new();
        let mut both_text = false;
        match (&system, &hoard) {
            (Some(a), Some(b)) => match (&a.text, &b.text) {
                (Some(ta), Some(tb)) => {
                    both_text = true;
                    if !a.checksum.eq(&b.checksum) {
                        unified_diff = line_diff(tb.as_str(), ta.as_str());
                    }
                },
                _ => {},
            },
            _ => {},
        }
        let (system_perms, hoard_perms) = match (&system, &hoard) {
            (Some(a), Some(b)) => (a.perms, b.perms),
            (Some(a), None) => (a.perms, a.perms),
            (None, Some(b)) => (b.perms, b.perms),
            (None, None) => (0, 0),
        };
        let system_checksum = match system {
            Some(a) => Some(a.checksum),
            None => None,
        };
        let hoard_checksum = match hoard {
            Some(b) => Some(b.checksum),
            None => None,
        };
        FileState {
            file,
            system_checksum,
            hoard_checksum,
            system_perms,
            hoard_perms,
            both_text,
            unified_diff,
            last_local,
            last_remote,
        }
    }
}

} // verus!
