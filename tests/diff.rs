use hoard::checksum::Checksum;
use hoard::diff::{classify, is_text, FileState, SideContent};
use hoard::log::Direction;
use hoard::paths::{HoardFile, HoardPath, SystemPath};
use hoard::translate::{DiffSource, HoardFileDiff, ItemOperation, OperationIter};

fn md5(hex: &str) -> Option<Checksum> {
    Some(Checksum::MD5(hex.to_string()))
}

fn state(
    system: Option<Checksum>,
    hoard: Option<Checksum>,
    last_local: Option<Option<Checksum>>,
    last_remote: Option<Option<Checksum>>,
) -> FileState {
    FileState {
        file: HoardFile::new(None, HoardPath("/data/hoards/anon_txt".to_string()), SystemPath("/home/anon.txt".to_string()), String::new()),
        system_checksum: system,
        hoard_checksum: hoard,
        system_perms: 0o644,
        hoard_perms: 0o644,
        both_text: true,
        unified_diff: String::new(),
        last_local,
        last_remote,
    }
}

fn is_op(op: &ItemOperation, expected: &str) -> bool {
    matches!(
        (op, expected),
        (ItemOperation::Create(_), "create")
            | (ItemOperation::Modify(_), "modify")
            | (ItemOperation::Delete(_), "delete")
            | (ItemOperation::Nothing(_), "nothing")
    )
}

#[test]
fn local_only_create() {
    let text = md5("f4c6ff7d6b0f3a6e5c3cf6df2e1c4b3a");
    let diff = classify(state(text.clone(), None, None, None));
    assert!(matches!(diff, HoardFileDiff::Created { diff_source: DiffSource::Local, .. }));
    let op = OperationIter::new(Direction::Backup).next_operation(diff);
    assert!(is_op(&op, "create"));
    let after = classify(state(text.clone(), text.clone(), Some(text), None));
    assert!(matches!(after, HoardFileDiff::Unchanged(_)));
}

#[test]
fn out_of_band_create() {
    let diff = classify(state(None, md5("02129bb861061d1a052c592e2dc6b383"), None, None));
    assert!(matches!(diff, HoardFileDiff::Created { diff_source: DiffSource::Unknown, .. }));
    assert!(is_op(&OperationIter::new(Direction::Backup).next_operation(diff), "delete"));
}

#[test]
fn mixed_modify() {
    let diff = classify(state(
        md5("aaaaaaaaaaaaaaaaaaaaaaaaaaaaaaaa"),
        md5("1cfab2a192005a9a8bdc69106b4627e2"),
        Some(md5("d3369a026ace494f56ead54d502a00dd")),
        Some(md5("1cfab2a192005a9a8bdc69106b4627e2")),
    ));
    assert!(matches!(diff, HoardFileDiff::TextModified { diff_source: DiffSource::Mixed, .. }));
    assert!(is_op(&OperationIter::new(Direction::Backup).next_operation(diff), "modify"));
}

#[test]
fn delete_remote_restore_local() {
    let c = md5("d3369a026ace494f56ead54d502a00dd");
    let diff = classify(state(c.clone(), None, Some(c), Some(None)));
    assert!(matches!(diff, HoardFileDiff::Deleted { diff_source: DiffSource::Remote, .. }));
    assert!(is_op(&OperationIter::new(Direction::Restore).next_operation(diff), "delete"));
}

#[test]
fn unchanged_files_after_backup_stay_unchanged() {
    let c = md5("d3369a026ace494f56ead54d502a00dd");
    assert!(matches!(classify(state(c.clone(), c.clone(), Some(c.clone()), Some(md5("other")))), HoardFileDiff::Unchanged(_)));
    assert!(matches!(classify(state(c.clone(), c.clone(), None, None)), HoardFileDiff::Unchanged(_)));
}

#[test]
fn other_classifications() {
    let a = md5("aa");
    let b = md5("bb");
    let remote = classify(state(a.clone(), b.clone(), Some(a.clone()), Some(b.clone())));
    assert!(matches!(remote, HoardFileDiff::TextModified { diff_source: DiffSource::Remote, .. }));
    let mut binary = state(b.clone(), a.clone(), Some(a.clone()), None);
    binary.both_text = false;
    assert!(matches!(classify(binary), HoardFileDiff::BinaryModified { diff_source: DiffSource::Local, .. }));
    let mut perms = state(a.clone(), a.clone(), Some(a.clone()), None);
    perms.system_perms = 0o600;
    assert!(matches!(
        classify(perms),
        HoardFileDiff::PermissionsModified { hoard_perms: 0o644, system_perms: 0o600, diff_source: DiffSource::Unknown, .. }
    ));
    let recreated = classify(state(a.clone(), None, Some(None), None));
    assert!(matches!(recreated, HoardFileDiff::Recreated { diff_source: DiffSource::Local, .. }));
    let local_delete = classify(state(None, a.clone(), Some(a.clone()), None));
    assert!(matches!(local_delete, HoardFileDiff::Deleted { diff_source: DiffSource::Local, .. }));
    let unknown_change = classify(state(a.clone(), b.clone(), Some(a.clone()), None));
    assert!(matches!(unknown_change, HoardFileDiff::TextModified { diff_source: DiffSource::Unknown, .. }));
}

#[test]
fn text_is_detected_from_the_head() {
    assert!(is_text(b"plain text\n"));
    assert!(is_text(b""));
    assert!(is_text("caf\u{e9}".as_bytes()));
    assert!(!is_text(b"bin\0ary"));
    assert!(!is_text(&[0xff, 0xfe, 0x41]));
    let mut long = vec![b'a'; 8192];
    long.push(0);
    assert!(is_text(&long));
}

#[test]
fn file_state_diffs_text_sides() {
    let f = HoardFile::new(None, HoardPath("/h".to_string()), SystemPath("/s".to_string()), String::new());
    let system = SideContent { checksum: Checksum::MD5("s".to_string()), perms: 0o644, text: Some("a\nb\n".to_string()) };
    let hoard = SideContent { checksum: Checksum::MD5("h".to_string()), perms: 0o600, text: Some("a\nc\n".to_string()) };
    let s = FileState::new(f, Some(system), Some(hoard), None, None);
    assert!(s.both_text);
    assert!(s.unified_diff.contains("-c"));
    assert!(s.unified_diff.contains("+b"));
    assert_eq!((s.system_perms, s.hoard_perms), (0o644, 0o600));
    let g = HoardFile::new(None, HoardPath("/h".to_string()), SystemPath("/s".to_string()), String::new());
    let only = SideContent { checksum: Checksum::MD5("s".to_string()), perms: 0o644, text: None };
    let t = FileState::new(g, Some(only), None, Some(None), None);
    assert!(!t.both_text);
    assert!(t.unified_diff.is_empty());
    assert!(matches!(classify(t), HoardFileDiff::Recreated { diff_source: DiffSource::Local, .. }));
}
