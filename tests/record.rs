use hoard::checksum::Checksum;
use hoard::log::{Direction, FileChange, Hoard, Pile};
use hoard::paths::{HoardFile, HoardPath, SystemPath};
use hoard::record::{FileOperation, RecordError};
use hoard::translate::ItemOperation;

fn file(pile: Option<&str>, rel: &str) -> HoardFile {
    HoardFile::new(
        pile.map(|p| p.to_string()),
        HoardPath("/data/hoards/h".to_string()),
        SystemPath("/home/u/h".to_string()),
        rel.to_string(),
    )
}

fn md5(hex: &str) -> Option<Checksum> {
    Some(Checksum::MD5(hex.to_string()))
}

#[test]
fn backup_records_system_checksums() {
    let ops = vec![
        FileOperation { operation: ItemOperation::Create(file(None, "a")), system_checksum: md5("s1"), hoard_checksum: md5("h1") },
        FileOperation { operation: ItemOperation::Modify(file(None, "b")), system_checksum: md5("s2"), hoard_checksum: None },
        FileOperation { operation: ItemOperation::Nothing(file(None, "c")), system_checksum: md5("s3"), hoard_checksum: md5("s3") },
        FileOperation { operation: ItemOperation::Delete(file(None, "d")), system_checksum: None, hoard_checksum: None },
    ];
    let hoard = Hoard::new(Direction::Backup, true, &ops).unwrap();
    let mut pile = Pile::new();
    pile.record("a".to_string(), FileChange::Created(Checksum::MD5("s1".to_string())));
    pile.record("b".to_string(), FileChange::Modified(Checksum::MD5("s2".to_string())));
    pile.record("c".to_string(), FileChange::Unmodified(Checksum::MD5("s3".to_string())));
    pile.record("d".to_string(), FileChange::Deleted);
    match hoard {
        Hoard::Anonymous(p) => assert_eq!(p, pile),
        Hoard::Named(_) => panic!("expected an anonymous hoard"),
    }
}

#[test]
fn restore_records_hoard_checksums_by_pile() {
    let ops = vec![
        FileOperation { operation: ItemOperation::Create(file(Some("text"), "")), system_checksum: md5("s1"), hoard_checksum: md5("h1") },
        FileOperation { operation: ItemOperation::Nothing(file(Some("bin"), "")), system_checksum: md5("s2"), hoard_checksum: md5("h2") },
    ];
    let hoard = Hoard::new(Direction::Restore, false, &ops).unwrap();
    let text = hoard.get_pile(Some(&"text".to_string())).unwrap();
    assert_eq!(text.checksum_for(&String::new()), md5("h1"));
    let bin = hoard.get_pile(Some(&"bin".to_string())).unwrap();
    assert_eq!(bin.checksum_for(&String::new()), md5("s2"));
    match hoard {
        Hoard::Named(piles) => assert_eq!(piles.len(), 2),
        Hoard::Anonymous(_) => panic!("expected a named hoard"),
    }
}

#[test]
fn missing_checksum_is_an_error() {
    let ops = vec![
        FileOperation { operation: ItemOperation::Delete(file(None, "x")), system_checksum: None, hoard_checksum: None },
        FileOperation { operation: ItemOperation::Create(file(None, "a")), system_checksum: md5("s"), hoard_checksum: None },
    ];
    match Hoard::new(Direction::Restore, true, &ops) {
        Err(RecordError::MissingChecksum(path)) => assert_eq!(path, "/data/hoards/h/a"),
        Ok(_) => panic!("expected an error"),
    }
    let empty: Vec<FileOperation> = Vec::new();
    match Hoard::new(Direction::Backup, false, &empty).unwrap() {
        Hoard::Named(piles) => assert_eq!(piles.len(), 0),
        Hoard::Anonymous(_) => panic!("expected a named hoard"),
    }
    match Hoard::new(Direction::Backup, true, &empty).unwrap() {
        Hoard::Anonymous(p) => assert_eq!(p, Pile::new()),
        Hoard::Named(_) => panic!("expected an anonymous hoard"),
    }
}
