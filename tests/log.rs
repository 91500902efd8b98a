use hoard::checksum::{Checksum, ChecksumType};
use hoard::assoc::AssocList;
use hoard::log::{Direction, FileChange, Hoard, OperationV2, Pile, Timestamp};

#[test]
fn test_checksum_derives() {
    let checksum = Checksum::MD5("legit checksum".to_string());
    assert!(format!("{:?}", checksum).contains("MD5"));
    assert_eq!(checksum, checksum.clone());
    assert_eq!(checksum.checksum_type(), ChecksumType::MD5);
    assert_eq!(checksum.digest(), "legit checksum");
}

#[test]
fn checksums_of_different_algorithms_differ() {
    assert_ne!(Checksum::MD5("ab".to_string()), Checksum::SHA256("ab".to_string()));
    assert_ne!(Checksum::MD5("ab".to_string()), Checksum::MD5("ac".to_string()));
}

#[test]
fn pile_keeps_one_kind_per_path() {
    let mut pile = Pile::new();
    let p = "dir/file".to_string();
    pile.record(p.clone(), FileChange::Created(Checksum::MD5("1".to_string())));
    pile.record(p.clone(), FileChange::Deleted);
    assert_eq!(pile.files().len(), 1);
    assert!(pile.contains_file(&p, true));
    assert_eq!(pile.checksum_for(&p), None);
    let all = pile.all_files_with_checksums();
    assert_eq!(all.len(), 1);
    assert_eq!(all[0].0, "dir/file");
    assert_eq!(all[0].1, None);
}

#[test]
fn pile_equality_ignores_order() {
    let mut a = Pile::new();
    a.record("x".to_string(), FileChange::Deleted);
    a.record("y".to_string(), FileChange::Unmodified(Checksum::SHA256("f".to_string())));
    let mut b = Pile::new();
    b.record("y".to_string(), FileChange::Unmodified(Checksum::SHA256("f".to_string())));
    b.record("x".to_string(), FileChange::Deleted);
    assert_eq!(a, b);
    b.record("x".to_string(), FileChange::Created(Checksum::SHA256("f".to_string())));
    assert_ne!(a, b);
}

#[test]
fn unmodified_file_counts_only_when_asked() {
    let mut pile = Pile::new();
    let p = "a".to_string();
    pile.record(p.clone(), FileChange::Unmodified(Checksum::MD5("9".to_string())));
    assert!(pile.contains_file(&p, false));
    assert!(!pile.contains_file(&p, true));
    assert_eq!(pile.checksum_for(&p), Some(Checksum::MD5("9".to_string())));
    let h = Hoard::Anonymous(pile);
    assert!(h.get_pile(None).is_some());
    assert!(h.get_pile(Some(&"a".to_string())).is_none());
}

#[test]
fn timestamp_fields_are_checked() {
    assert!(Timestamp::new(2024, 1, 2, 3, 4, 5, 0).is_some());
    assert!(Timestamp::new(2024, 13, 2, 3, 4, 5, 0).is_none());
    assert!(Timestamp::new(2024, 1, 2, 24, 4, 5, 0).is_none());
    assert!(Timestamp::new(2024, 1, 2, 3, 4, 5, 1_000_000).is_none());
    assert!(Timestamp::new(2024, 2, 29, 0, 0, 0, 0).is_some());
    assert!(Timestamp::new(2023, 2, 29, 0, 0, 0, 0).is_none());
    assert!(Timestamp::new(2000, 2, 29, 0, 0, 0, 0).is_some());
    assert!(Timestamp::new(1900, 2, 29, 0, 0, 0, 0).is_none());
    assert!(Timestamp::new(2024, 4, 31, 0, 0, 0, 0).is_none());
    assert!(Timestamp::new(2024, 12, 31, 0, 0, 0, 0).is_some());
    assert_eq!(Timestamp::new(2024, 1, 2, 3, 4, 5, 6).unwrap().to_fields(), (2024, 1, 2, 3, 4, 5, 6));
}

#[test]
fn log_lists_every_file_once() {
    let mut text = Pile::new();
    text.record(String::new(), FileChange::Modified(Checksum::MD5("1".to_string())));
    let mut dir = Pile::new();
    dir.record("a".to_string(), FileChange::Deleted);
    dir.record("b".to_string(), FileChange::Created(Checksum::MD5("2".to_string())));
    let mut piles = AssocList::new();
    piles.insert("text".to_string(), text);
    piles.insert("dir".to_string(), dir);
    let op = OperationV2::new(Timestamp::new(2024, 1, 1, 0, 0, 0, 0).unwrap(), Direction::Backup, "h".to_string(), Hoard::Named(piles));
    let mut all: Vec<(Option<String>, String, Option<Checksum>)> = op
        .all_files_with_checksums()
        .into_iter()
        .map(|i| (i.pile_name, i.relative_path, i.checksum))
        .collect();
    all.sort_by(|x, y| (x.0.clone(), x.1.clone()).cmp(&(y.0.clone(), y.1.clone())));
    assert_eq!(all.len(), 3);
    assert_eq!(all[0], (Some("dir".to_string()), "a".to_string(), None));
    assert_eq!(all[1], (Some("dir".to_string()), "b".to_string(), Some(Checksum::MD5("2".to_string()))));
    assert_eq!(all[2], (Some("text".to_string()), String::new(), Some(Checksum::MD5("1".to_string()))));
    assert_eq!(op.hoard_name(), "h");
    assert_eq!(op.direction(), Direction::Backup);
}

#[test]
fn digests_are_lowercase_hex() {
    assert_eq!(hoard::checksum::hex_lower(&[0x00, 0xab, 0x0f, 0xF0]), "00ab0ff0");
    assert_eq!(hoard::checksum::hex_lower(&[]), "");
    assert_eq!(Checksum::from_digest(ChecksumType::SHA256, &[0xde, 0xad]), Checksum::SHA256("dead".to_string()));
}
