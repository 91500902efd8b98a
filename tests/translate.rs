use hoard::log::Direction;
use hoard::paths::{HoardFile, HoardPath, SystemPath};
use hoard::translate::{DiffSource, HoardFileDiff, ItemOperation, OperationIter};

fn file() -> HoardFile {
    HoardFile::new(
        None,
        HoardPath("/data/hoards/anon_txt".to_string()),
        SystemPath("/home/anon.txt".to_string()),
        String::new(),
    )
}

fn kind(op: &ItemOperation) -> &'static str {
    match op {
        ItemOperation::Create(_) => "create",
        ItemOperation::Modify(_) => "modify",
        ItemOperation::Delete(_) => "delete",
        ItemOperation::Nothing(_) => "nothing",
    }
}

fn created(source: DiffSource) -> HoardFileDiff {
    HoardFileDiff::Created { file: file(), diff_source: source }
}

fn deleted(source: DiffSource) -> HoardFileDiff {
    HoardFileDiff::Deleted { file: file(), diff_source: source }
}

#[test]
fn local_create_is_created_by_backup() {
    let op = OperationIter::new(Direction::Backup).next_operation(created(DiffSource::Local));
    assert_eq!(kind(&op), "create");
    assert_eq!(op.hoard_file().system_path(), "/home/anon.txt");
}

#[test]
fn out_of_band_create_is_deleted_by_backup() {
    let op = OperationIter::new(Direction::Backup).next_operation(created(DiffSource::Unknown));
    assert_eq!(kind(&op), "delete");
    let op = OperationIter::new(Direction::Restore).next_operation(created(DiffSource::Unknown));
    assert_eq!(kind(&op), "create");
}

#[test]
fn mixed_text_change_is_modified() {
    let diff = HoardFileDiff::TextModified {
        file: file(),
        unified_diff: "-a\n+b\n".to_string(),
        diff_source: DiffSource::Mixed,
    };
    assert_eq!(kind(&OperationIter::new(Direction::Backup).next_operation(diff)), "modify");
}

#[test]
fn remote_delete_is_deleted_by_restore() {
    let op = OperationIter::new(Direction::Restore).next_operation(deleted(DiffSource::Remote));
    assert_eq!(kind(&op), "delete");
}

#[test]
fn translation_table_is_complete() {
    let sources = [DiffSource::Local, DiffSource::Remote, DiffSource::Mixed, DiffSource::Unknown];
    let expected_created_backup = ["create", "delete", "create", "delete"];
    let expected_created_restore = ["delete", "create", "create", "create"];
    let expected_deleted_backup = ["delete", "create", "delete", "create"];
    let expected_deleted_restore = ["create", "delete", "delete", "delete"];
    for (i, s) in sources.iter().enumerate() {
        let b = OperationIter::new(Direction::Backup);
        let r = OperationIter::new(Direction::Restore);
        assert_eq!(kind(&b.next_operation(created(*s))), expected_created_backup[i]);
        assert_eq!(kind(&r.next_operation(created(*s))), expected_created_restore[i]);
        assert_eq!(
            kind(&b.next_operation(HoardFileDiff::Recreated { file: file(), diff_source: *s })),
            expected_created_backup[i]
        );
        assert_eq!(kind(&b.next_operation(deleted(*s))), expected_deleted_backup[i]);
        assert_eq!(kind(&r.next_operation(deleted(*s))), expected_deleted_restore[i]);
        let perms = HoardFileDiff::PermissionsModified { file: file(), hoard_perms: 0o644, system_perms: 0o600, diff_source: *s };
        assert_eq!(kind(&r.next_operation(perms)), "modify");
        let bin = HoardFileDiff::BinaryModified { file: file(), diff_source: *s };
        assert_eq!(kind(&b.next_operation(bin)), "modify");
    }
    assert_eq!(kind(&OperationIter::new(Direction::Backup).next_operation(HoardFileDiff::Unchanged(file()))), "nothing");
}

#[test]
fn stream_is_translated_in_order() {
    let it = OperationIter::new(Direction::Backup);
    let ops = it.operations(vec![
        created(DiffSource::Local),
        HoardFileDiff::Unchanged(file()),
        deleted(DiffSource::Remote),
    ]);
    let kinds: Vec<&str> = ops.iter().map(kind).collect();
    assert_eq!(kinds, vec!["create", "nothing", "create"]);
}
