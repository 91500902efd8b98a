use hoard::checksum::Checksum;
use hoard::history::latest_record;
use hoard::log::{Direction, FileChange, Hoard, OperationV2, Pile, Timestamp};

fn op(hour: u8, files: Vec<(&str, FileChange)>) -> OperationV2 {
    let mut pile = Pile::new();
    for (path, change) in files {
        pile.record(path.to_string(), change);
    }
    OperationV2::new(Timestamp::new(2024, 3, 1, hour, 0, 0, 0).unwrap(), Direction::Backup, "h".to_string(), Hoard::Anonymous(pile))
}

fn md5(hex: &str) -> Checksum {
    Checksum::MD5(hex.to_string())
}

#[test]
fn latest_log_mentioning_the_file_wins() {
    let logs = vec![
        op(1, vec![("a", FileChange::Created(md5("1")))]),
        op(2, vec![("a", FileChange::Modified(md5("2"))), ("b", FileChange::Created(md5("9")))]),
        op(3, vec![("b", FileChange::Deleted)]),
    ];
    assert_eq!(latest_record(&logs, None, &"a".to_string()), Some(Some(md5("2"))));
    assert_eq!(latest_record(&logs, None, &"b".to_string()), Some(None));
    assert_eq!(latest_record(&logs, None, &"c".to_string()), None);
    assert_eq!(latest_record(&logs, Some(&"pile".to_string()), &"a".to_string()), None);
    assert_eq!(latest_record(&Vec::new(), None, &"a".to_string()), None);
}
