//! Retention of operation logs: which logs of one (system, hoard) directory
//! a cleanup removes.
//!
//! The latest log is always kept. When it records a restore, the latest
//! backup is kept as well, so that the last known contents of the hoard stay
//! reconstructible. Every other log is removed.

use vstd::prelude::*;
use crate::log::Direction;
use crate::log_name::{name_lt, seq_lt, lemma_seq_lt_total, lemma_seq_lt_transitive};

verus! {

/// A hexadecimal digit, in either case.
pub open spec fn is_hex(c: char) -> bool {
    ('0' <= c && c <= '9') || ('a' <= c && c <= 'f') || ('A' <= c && c <= 'F')
}

/// A UUID as 32 hex digits in groups of 8, 4, 4, 4 and 12, joined by hyphens.
pub open spec fn is_hyphenated_uuid(s: Seq<char>) -> bool {
    &&& s.len() == 36
    &&& forall|i: int|
        0 <= i < 36 ==> if i == 8 || i == 13 || i == 18 || i == 23 {
            #[trigger] s[i] == '-'
        } else {
            is_hex(s[i])
        }
}

/// The prefix `urn:uuid:`, with letters in either case.
pub open spec fn has_urn_prefix(s: Seq<char>) -> bool {
    &&& s.len() >= 9
    &&& (s[0] == 'u' || s[0] == 'U') && (s[1] == 'r' || s[1] == 'R') && (s[2] == 'n' || s[2] == 'N')
    &&& s[3] == ':'
    &&& (s[4] == 'u' || s[4] == 'U') && (s[5] == 'u' || s[5] == 'U') && (s[6] == 'i' || s[6] == 'I')
    &&& (s[7] == 'd' || s[7] == 'D')
    &&& s[8] == ':'
}

/// The texts that name a UUID: 32 hex digits, the hyphenated form, the
/// hyphenated form in braces, or it after `urn:uuid:`.
pub open spec fn is_uuid_text(s: Seq<char>) -> bool {
    ||| s.len() == 32 && forall|i: int| 0 <= i < 32 ==> is_hex(#[trigger] s[i])
    ||| is_hyphenated_uuid(s)
    ||| s.len() == 38 && s[0] == '{' && s[37] == '}' && is_hyphenated_uuid(s.subrange(1, 37))
    ||| s.len() == 45 && has_urn_prefix(s) && is_hyphenated_uuid(s.subrange(9, 45))
}

/// Relies on uuid::Uuid::parse_str: it accepts exactly the simple,
/// hyphenated, braced and URN forms, with hex digits in either case.
#[verifier::external_body]
fn uuid_parse_ok(s: &str) -> (r: bool)
    ensures
        r == is_uuid_text(s@),
{
    uuid::Uuid::parse_str(s).is_ok()
}

/// Whether an entry of the history root names a system: its name is a UUID.
/// Other entries are left alone by a cleanup.
pub fn is_system_dir_name(name: &str) -> (r: bool)
    ensures
        r == is_uuid_text(name@),
{
    uuid_parse_ok(name)
}

/// One log file of a directory: its file name and the direction it records.
#[derive(Debug)]
pub struct LogFile {
    pub name: String,
    pub direction: Direction,
}

/// No two logs share a file name.
pub open spec fn names_distinct(logs: Seq<LogFile>) -> bool {
    forall|i: int, j: int| 0 <= i < j < logs.len() ==> logs[i].name@ != logs[j].name@
}

/// Whether a log is one of those considered: every log, or only backups.
pub open spec fn considered(log: LogFile, only_backups: bool) -> bool {
    !only_backups || log.direction == Direction::Backup
}

/// Log `i` has the greatest name among the considered logs.
pub open spec fn is_latest_of(logs: Seq<LogFile>, i: int, only_backups: bool) -> bool {
    &&& 0 <= i < logs.len()
    &&& considered(logs[i], only_backups)
    &&& forall|j: int|
        0 <= j < logs.len() && j != i && #[trigger] considered(logs[j], only_backups) ==> seq_lt(
            logs[j].name@,
            logs[i].name@,
        )
}

/// Whether a cleanup keeps log `i`: it is the latest log, or it is the latest
/// backup and the latest log is a restore.
pub open spec fn retained(logs: Seq<LogFile>, i: int) -> bool {
    ||| is_latest_of(logs, i, false)
    ||| (is_latest_of(logs, i, true) && exists|l: int|
        is_latest_of(logs, l, false) && #[trigger] logs[l].direction == Direction::Restore)
}

/// The position of the considered log with the greatest name, if any.
fn latest_of(logs: &Vec<LogFile>, only_backups: bool) -> (r: Option<usize>)
    requires
        names_distinct(logs@),
    ensures
        r matches Some(i) ==> is_latest_of(logs@, i as int, only_backups),
        r is None ==> forall|j: int| 0 <= j < logs@.len() ==> !considered(#[trigger] logs@[j], only_backups),
{
    let mut best: Option<usize> = None;
    let mut i: usize = 0;
    while i < logs.len()
        invariant
            names_distinct(logs@),
            i <= logs@.len(),
            best matches Some(b) ==> b < i && considered(logs@[b as int], only_backups) && forall|j: int|
                0 <= j < i && j != b && #[trigger] considered(logs@[j], only_backups) ==> seq_lt(
                    logs@[j].name@,
                    logs@[b as int].name@,
                ),
            best is None ==> forall|j: int| 0 <= j < i ==> !considered(#[trigger] logs@[j], only_backups),
        decreases logs@.len() - i,
    {
        let is_considered = match logs[i].direction {
            Direction::Backup => true,
            Direction::Restore => !only_backups,
        };
        if is_considered {
            match best {
                None => {
                    best = Some(i);
                },
                Some(b) => {
                    if name_lt(logs[b].name.as_str(), logs[i].name.as_str()) {
                        proof {
                            assert forall|j: int|
                                0 <= j < i + 1 && j != i && #[trigger] considered(logs@[j], only_backups)
                                    implies seq_lt(logs@[j].name@, logs@[i as int].name@) by {
                                if j != b {
                                    lemma_seq_lt_transitive(logs@[j].name@, logs@[b as int].name@, logs@[i as int].name@);
                                }
                            }
                        }
                        best = Some(i);
                    } else {
                        proof {
                            lemma_seq_lt_total(logs@[b as int].name@, logs@[i as int].name@);
                        }
                    }
                },
            }
        }
        i = i + 1;
    }
    best
}

/// The positions, in increasing order, of the logs that a cleanup of one
/// directory removes.
pub fn logs_to_delete(logs: &Vec<LogFile>) -> (r: Vec<usize>)
    requires
        names_distinct(logs@),
    ensures
        forall|k: int| 0 <= k < r@.len() ==> r@[k] < logs@.len(),
        forall|k: int, m: int| 0 <= k < m < r@.len() ==> r@[k] < r@[m],
        forall|i: int| 0 <= i < logs@.len() ==> (r@.contains(i as usize) <==> !retained(logs@, i)),
{
    let latest = latest_of(logs, false);
    let keep_backup = match latest {
        Some(l) => match logs[l].direction {
            Direction::Restore => latest_of(logs, true),
            Direction::Backup => None,
        },
        None => None,
    };
    proof {
        assert forall|i: int, x: int| is_latest_of(logs@, i, false) && is_latest_of(logs@, x, false) implies i == x by {
            if i != x {
                lemma_seq_lt_total(logs@[i].name@, logs@[x].name@);
            }
        }
        assert forall|i: int, x: int| is_latest_of(logs@, i, true) && is_latest_of(logs@, x, true) implies i == x by {
            if i != x {
                lemma_seq_lt_total(logs@[i].name@, logs@[x].name@);
            }
        }
        if latest is None {
            assert forall|i: int| 0 <= i < logs@.len() implies !retained(logs@, i) by {
                assert(!considered(logs@[i], false));
            }
        }
    }
    let mut r: Vec<usize> = Vec::new();
    let mut i: usize = 0;
    while i < logs.len()
        invariant
            names_distinct(logs@),
            i <= logs@.len(),
            latest matches Some(l) ==> is_latest_of(logs@, l as int, false),
            latest is None ==> forall|j: int| 0 <= j < logs@.len() ==> !retained(logs@, j),
            forall|a: int, x: int| is_latest_of(logs@, a, false) && is_latest_of(logs@, x, false) ==> a == x,
            forall|a: int, x: int| is_latest_of(logs@, a, true) && is_latest_of(logs@, x, true) ==> a == x,
            keep_backup matches Some(b) ==> (is_latest_of(logs@, b as int, true) && (latest matches Some(l)
                && logs@[l as int].direction == Direction::Restore)),
            keep_backup is None ==> (latest matches Some(l) ==> (logs@[l as int].direction == Direction::Backup
                || forall|j: int| 0 <= j < logs@.len() ==> !considered(#[trigger] logs@[j], true))),
            forall|k: int| 0 <= k < r@.len() ==> r@[k] < i,
            forall|k: int, m: int| 0 <= k < m < r@.len() ==> r@[k] < r@[m],
            forall|j: int| 0 <= j < i ==> (r@.contains(j as usize) <==> !retained(logs@, j)),
        decreases logs@.len() - i,
    {
        let kept = match latest {
            Some(l) => l == i || match keep_backup {
                Some(b) => b == i,
                None => false,
            },
            None => false,
        };
        proof {
            if let Some(l) = latest {
                if kept {
                    assert(retained(logs@, i as int));
                } else {
                    if retained(logs@, i as int) {
                        if !is_latest_of(logs@, i as int, false) {
                            let w = choose|w: int|
                                is_latest_of(logs@, w, false) && #[trigger] logs@[w].direction == Direction::Restore;
                            assert(w == l);
                            assert(considered(logs@[i as int], true));
                        }
                    }
                }
            }
        }
        let ghost before = r@;
        if !kept {
            r.push(i);
        }
        proof {
            assert forall|j: int| 0 <= j < i + 1 implies (r@.contains(j as usize) <==> !retained(logs@, j)) by {
                if j < i {
                    if r@.contains(j as usize) && !before.contains(j as usize) {
                        assert(r@.last() == i);
                    }
                    if before.contains(j as usize) {
                        let k = choose|k: int| 0 <= k < before.len() && before[k] == j as usize;
                        assert(r@[k] == j as usize);
                    }
                } else {
                    if !kept {
                        assert(r@[r@.len() - 1] == i);
                    } else {
                        if r@.contains(j as usize) {
                            let k = choose|k: int| 0 <= k < r@.len() && r@[k] == j as usize;
                        }
                    }
                }
            }
        }
        i = i + 1;
    }
    r
}

/// The logs that file names and a choice of directions describe.
pub open spec fn logs_of(names: Seq<String>, d: Seq<Direction>) -> Seq<LogFile> {
    Seq::new(names.len(), |i: int| LogFile { name: names[i], direction: d[i] })
}

/// The directions agree with those already read.
pub open spec fn agrees(known: Seq<Option<Direction>>, d: Seq<Direction>) -> bool {
    &&& d.len() == known.len()
    &&& forall|i: int| 0 <= i < known.len() && (#[trigger] known[i]) is Some ==> d[i] == known[i]->0
}

/// No two file names are equal.
pub open spec fn strings_distinct(names: Seq<String>) -> bool {
    forall|i: int, j: int| 0 <= i < j < names.len() ==> names[i]@ != names[j]@
}

/// Whether log `j` is a candidate: not `skip`, and, with `unrestored`, not
/// known to be a restore.
pub open spec fn candidate(known: Seq<Option<Direction>>, skip: Option<usize>, unrestored: bool, j: int) -> bool {
    &&& skip != Some(j as usize)
    &&& (unrestored ==> known[j] != Some(Direction::Restore))
}

/// What a cleanup of one directory does next: read the direction of a log,
/// or delete the logs at these positions (in increasing order).
#[derive(Debug)]
pub enum RetentionStep {
    Read(usize),
    Delete(Vec<usize>),
}

/// The candidate with the greatest name.
fn latest_candidate(names: &Vec<String>, known: &Vec<Option<Direction>>, skip: Option<usize>, unrestored: bool) -> (r: Option<usize>)
    requires
        known@.len() == names@.len(),
        strings_distinct(names@),
    ensures
        r matches Some(b) ==> b < names@.len() && candidate(known@, skip, unrestored, b as int) && forall|j: int|
            0 <= j < names@.len() && j != b && #[trigger] candidate(known@, skip, unrestored, j) ==> seq_lt(
                names@[j]@,
                names@[b as int]@,
            ),
        r is None ==> forall|j: int| 0 <= j < names@.len() ==> !#[trigger] candidate(known@, skip, unrestored, j),
{
    let mut best: Option<usize> = None;
    let mut i: usize = 0;
    while i < names.len()
        invariant
            known@.len() == names@.len(),
            strings_distinct(names@),
            i <= names@.len(),
            best matches Some(b) ==> b < i && candidate(known@, skip, unrestored, b as int) && forall|j: int|
                0 <= j < i && j != b && #[trigger] candidate(known@, skip, unrestored, j) ==> seq_lt(
                    names@[j]@,
                    names@[b as int]@,
                ),
            best is None ==> forall|j: int| 0 <= j < i ==> !#[trigger] candidate(known@, skip, unrestored, j),
        decreases names@.len() - i,
    {
        let skipped = match skip {
            Some(s) => s == i,
            None => false,
        };
        let restored = match known[i] {
            Some(Direction::Restore) => true,
            _ => false,
        };
        if !skipped && !(unrestored && restored) {
            match best {
                None => {
                    best = Some(i);
                },
                Some(b) => {
                    if name_lt(names[b].as_str(), names[i].as_str()) {
                        proof {
                            assert forall|j: int|
                                0 <= j < i + 1 && j != i && #[trigger] candidate(known@, skip, unrestored, j)
                                    implies seq_lt(names@[j]@, names@[i as int]@) by {
                                if j != b {
                                    lemma_seq_lt_transitive(names@[j]@, names@[b as int]@, names@[i as int]@);
                                }
                            }
                        }
                        best = Some(i);
                    } else {
                        proof {
                            lemma_seq_lt_total(names@[b as int]@, names@[i as int]@);
                        }
                    }
                },
            }
        }
        i = i + 1;
    }
    best
}

/// Every position below `n` but `keep` and `also`, in increasing order.
fn all_but(n: usize, keep: usize, also: Option<usize>) -> (r: Vec<usize>)
    ensures
        forall|k: int, m: int| 0 <= k < m < r@.len() ==> r@[k] < r@[m],
        forall|k: int| 0 <= k < r@.len() ==> r@[k] < n,
        forall|i: int| 0 <= i < n ==> (#[trigger] r@.contains(i as usize) <==> (i != keep && also != Some(i as usize))),
{
    let mut r: Vec<usize> = Vec::new();
    let mut i: usize = 0;
    while i < n
        invariant
            i <= n,
            forall|k: int, m: int| 0 <= k < m < r@.len() ==> r@[k] < r@[m],
            forall|k: int| 0 <= k < r@.len() ==> r@[k] < i,
            forall|j: int| 0 <= j < i ==> (#[trigger] r@.contains(j as usize) <==> (j != keep && also != Some(j as usize))),
        decreases n - i,
    {
        let ghost before = r@;
        let dropped = match also {
            Some(b) => b == i,
            None => false,
        };
        if i != keep && !dropped {
            r.push(i);
        }
        proof {
            assert forall|j: int| 0 <= j < i + 1 implies (#[trigger] r@.contains(j as usize) <==> (j != keep && also != Some(j as usize))) by {
                if j < i {
                    if r@.contains(j as usize) && !before.contains(j as usize) {
                        assert(r@.last() == i);
                    }
                    if before.contains(j as usize) {
                        let k = choose|k: int| 0 <= k < before.len() && before[k] == j as usize;
                        assert(r@[k] == j as usize);
                    }
                } else if r@.len() > before.len() {
                    assert(r@[r@.len() - 1] == i);
                } else if r@.contains(j as usize) {
                    let k = choose|k: int| 0 <= k < r@.len() && r@[k] == j as usize;
                }
            }
        }
        i = i + 1;
    }
    r
}

/// Latest logs are unique among distinct names.
proof fn lemma_latest_unique(logs: Seq<LogFile>, a: int, b: int, only_backups: bool)
    requires
        names_distinct(logs),
        is_latest_of(logs, a, only_backups),
        is_latest_of(logs, b, only_backups),
    ensures
        a == b,
{
    if a != b {
        lemma_seq_lt_total(logs[a].name@, logs[b].name@);
    }
}

/// The next step of a cleanup of one directory, given the directions read
/// so far (`None` where a log has not been read). The directions it asks for
/// are those of the latest log and, when that is a restore, of the logs
/// before it, newest first, until a backup; it never asks for one twice.
/// The logs it deletes are those that a cleanup does not keep, whatever the
/// directions of the logs it did not read.
pub fn retention_step(names: &Vec<String>, known: &Vec<Option<Direction>>) -> (r: RetentionStep)
    requires
        known@.len() == names@.len(),
        strings_distinct(names@),
    ensures
        r matches RetentionStep::Read(i) ==> i < names@.len() && known@[i as int] is None,
        r matches RetentionStep::Delete(v) ==> (forall|k: int, m: int| 0 <= k < m < v@.len() ==> v@[k] < v@[m])
            && (forall|k: int| 0 <= k < v@.len() ==> v@[k] < names@.len())
            && forall|d: Seq<Direction>, i: int| agrees(known@, d) && 0 <= i < names@.len() ==> (v@.contains(i as usize)
                <==> !#[trigger] retained(logs_of(names@, d), i)),
{
    let n = names.len();
    let latest = latest_candidate(names, known, None, false);
    match latest {
        None => {
            proof {
                assert(n == 0) by {
                    if n > 0 {
                        assert(candidate(known@, None, false, 0));
                    }
                }
            }
            RetentionStep::Delete(Vec::new())
        },
        Some(l) => match known[l] {
            None => RetentionStep::Read(l),
            Some(Direction::Backup) => {
                let v = all_but(n, l, None);
                proof {
                    assert forall|d: Seq<Direction>, i: int| agrees(known@, d) && 0 <= i < names@.len() implies (v@.contains(i as usize)
                        <==> !#[trigger] retained(logs_of(names@, d), i)) by {
                        let logs = logs_of(names@, d);
                        assert(known@[l as int] is Some);
                        assert(is_latest_of(logs, l as int, false)) by {
                            assert forall|j: int| 0 <= j < logs.len() && j != l && #[trigger] considered(logs[j], false)
                                implies seq_lt(logs[j].name@, logs[l as int].name@) by {
                                assert(candidate(known@, None, false, j));
                            }
                        }
                        if retained(logs, i) && i != l {
                            if is_latest_of(logs, i, false) {
                                lemma_latest_unique(logs, i, l as int, false);
                            } else {
                                let w = choose|w: int| is_latest_of(logs, w, false) && #[trigger] logs[w].direction == Direction::Restore;
                                lemma_latest_unique(logs, w, l as int, false);
                            }
                        }
                    }
                }
                RetentionStep::Delete(v)
            },
            Some(Direction::Restore) => {
                let backup = latest_candidate(names, known, Some(l), true);
                match backup {
                    Some(b) => match known[b] {
                        None => RetentionStep::Read(b),
                        Some(_) => {
                            let v = all_but(n, l, Some(b));
                            proof {
                                assert(known@[b as int] == Some(Direction::Backup));
                                assert forall|d: Seq<Direction>, i: int| agrees(known@, d) && 0 <= i < names@.len() implies (v@.contains(i as usize)
                                    <==> !#[trigger] retained(logs_of(names@, d), i)) by {
                                    let logs = logs_of(names@, d);
                                    assert(known@[l as int] is Some);
                                    assert(known@[b as int] is Some);
                                    assert(is_latest_of(logs, l as int, false)) by {
                                        assert forall|j: int| 0 <= j < logs.len() && j != l && #[trigger] considered(logs[j], false)
                                            implies seq_lt(logs[j].name@, logs[l as int].name@) by {
                                            assert(candidate(known@, None, false, j));
                                        }
                                    }
                                    assert(is_latest_of(logs, b as int, true)) by {
                                        assert forall|j: int| 0 <= j < logs.len() && j != b && #[trigger] considered(logs[j], true)
                                            implies seq_lt(logs[j].name@, logs[b as int].name@) by {
                                            if known@[j] is Some {
                                                assert(d[j] == known@[j]->0);
                                            }
                                            assert(candidate(known@, Some(l), true, j));
                                        }
                                    }
                                    assert(logs[l as int].direction == Direction::Restore);
                                    if i == l as int {
                                        assert(retained(logs, i));
                                    } else if i == b as int {
                                        assert(retained(logs, i));
                                    } else if retained(logs, i) {
                                        if is_latest_of(logs, i, false) {
                                            lemma_latest_unique(logs, i, l as int, false);
                                        } else {
                                            lemma_latest_unique(logs, i, b as int, true);
                                        }
                                    }
                                }
                            }
                            RetentionStep::Delete(v)
                        },
                    },
                    None => {
                        let v = all_but(n, l, None);
                        proof {
                            assert forall|d: Seq<Direction>, i: int| agrees(known@, d) && 0 <= i < names@.len() implies (v@.contains(i as usize)
                                <==> !#[trigger] retained(logs_of(names@, d), i)) by {
                                let logs = logs_of(names@, d);
                                assert(known@[l as int] is Some);
                                assert(is_latest_of(logs, l as int, false)) by {
                                    assert forall|j: int| 0 <= j < logs.len() && j != l && #[trigger] considered(logs[j], false)
                                        implies seq_lt(logs[j].name@, logs[l as int].name@) by {
                                        assert(candidate(known@, None, false, j));
                                    }
                                }
                                if retained(logs, i) && i != l {
                                    if is_latest_of(logs, i, false) {
                                        lemma_latest_unique(logs, i, l as int, false);
                                    } else {
                                        assert(!candidate(known@, Some(l), true, i));
                                        assert(known@[i] is Some);
                                    }
                                }
                            }
                        }
                        RetentionStep::Delete(v)
                    },
                }
            },
        },
    }
}

} // verus!
