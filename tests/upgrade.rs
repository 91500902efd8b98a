use hoard::assoc::AssocList;
use hoard::checksum::Checksum;
use hoard::log::{Direction, FileChange, Hoard, OperationV2, Pile, Timestamp};
use hoard::upgrade::{upgrade_operations, LastChecksum, Operation};
use hoard::v1::{HoardV1, OperationV1, PileFile, PileV1};

fn ts(hour: u8) -> Timestamp {
    Timestamp::new(2024, 1, 2, hour, 4, 5, 0).unwrap()
}

fn v1_pile(files: &[(&str, &str)]) -> PileV1 {
    let mut pile = AssocList::new();
    for (path, hex) in files {
        pile.insert(path.to_string(), hex.to_string());
    }
    pile
}

fn md5(hex: &str) -> Checksum {
    Checksum::MD5(hex.to_string())
}

fn v2_pile(files: Vec<(&str, FileChange)>) -> Pile {
    let mut pile = Pile::new();
    for (path, change) in files {
        pile.record(path.to_string(), change);
    }
    pile
}

fn named(piles: Vec<(&str, Pile)>) -> Hoard {
    let mut map = AssocList::new();
    for (name, pile) in piles {
        map.insert(name.to_string(), pile);
    }
    Hoard::Named(map)
}

fn v1_op(hour: u8, is_backup: bool, hoard_name: &str, hoard: HoardV1) -> OperationV1 {
    OperationV1 { timestamp: ts(hour), is_backup, hoard_name: hoard_name.to_string(), hoard }
}

fn assert_conversion(ops_v1: Vec<OperationV1>, ops_v2: Vec<OperationV2>) {
    let mut mapping: AssocList<PileFile, LastChecksum> = AssocList::new();
    let mut file_set: AssocList<PileFile, ()> = AssocList::new();
    for (op_v1, op_v2) in ops_v1.into_iter().zip(ops_v2) {
        let new_op = OperationV2::from_v1(&mut mapping, &mut file_set, op_v1);
        assert_eq!(op_v2, new_op);
    }
}

#[test]
fn test_from_anonymous_file() {
    let hoard_name = "anon_file";
    let ops_v1 = vec![
        v1_op(10, true, hoard_name, HoardV1::Anonymous(v1_pile(&[("", "d3369a026ace494f56ead54d502a00dd")]))),
        v1_op(8, false, hoard_name, HoardV1::Anonymous(v1_pile(&[("", "d3369a026ace494f56ead54d502a00dd")]))),
        v1_op(6, true, hoard_name, HoardV1::Anonymous(v1_pile(&[]))),
    ];
    let ops_v2 = vec![
        OperationV2::new(
            ts(10),
            Direction::Backup,
            hoard_name.to_string(),
            Hoard::Anonymous(v2_pile(vec![("", FileChange::Created(md5("d3369a026ace494f56ead54d502a00dd")))])),
        ),
        OperationV2::new(
            ts(8),
            Direction::Restore,
            hoard_name.to_string(),
            Hoard::Anonymous(v2_pile(vec![("", FileChange::Unmodified(md5("d3369a026ace494f56ead54d502a00dd")))])),
        ),
        OperationV2::new(
            ts(6),
            Direction::Backup,
            hoard_name.to_string(),
            Hoard::Anonymous(v2_pile(vec![("", FileChange::Deleted)])),
        ),
    ];
    assert_conversion(ops_v1, ops_v2);
}

#[test]
fn test_from_anonymous_dir() {
    let hoard_name = "anon_file";
    let ops_v1 = vec![
        v1_op(
            10,
            true,
            hoard_name,
            HoardV1::Anonymous(v1_pile(&[
                ("file_1", "ba9d332813a722b273a95fa13dd88d94"),
                ("file_2", "92ed3b5f07b44bc4f70d0b24d5e1867c"),
            ])),
        ),
        v1_op(
            8,
            true,
            hoard_name,
            HoardV1::Anonymous(v1_pile(&[
                ("file_1", "1cfab2a192005a9a8bdc69106b4627e2"),
                ("file_2", "92ed3b5f07b44bc4f70d0b24d5e1867c"),
                ("file_3", "797b373a9c4ec0d6de0a31a90b5bee8e"),
            ])),
        ),
        v1_op(
            6,
            true,
            hoard_name,
            HoardV1::Anonymous(v1_pile(&[
                ("file_1", "1cfab2a192005a9a8bdc69106b4627e2"),
                ("file_3", "1deb21ef3bb87be4ad71d73fff6bb8ec"),
            ])),
        ),
    ];
    let ops_v2 = vec![
        OperationV2::new(
            ts(10),
            Direction::Backup,
            hoard_name.to_string(),
            Hoard::Anonymous(v2_pile(vec![
                ("file_1", FileChange::Created(md5("ba9d332813a722b273a95fa13dd88d94"))),
                ("file_2", FileChange::Created(md5("92ed3b5f07b44bc4f70d0b24d5e1867c"))),
            ])),
        ),
        OperationV2::new(
            ts(8),
            Direction::Backup,
            hoard_name.to_string(),
            Hoard::Anonymous(v2_pile(vec![
                ("file_3", FileChange::Created(md5("797b373a9c4ec0d6de0a31a90b5bee8e"))),
                ("file_1", FileChange::Modified(md5("1cfab2a192005a9a8bdc69106b4627e2"))),
                ("file_2", FileChange::Unmodified(md5("92ed3b5f07b44bc4f70d0b24d5e1867c"))),
            ])),
        ),
        OperationV2::new(
            ts(6),
            Direction::Backup,
            hoard_name.to_string(),
            Hoard::Anonymous(v2_pile(vec![
                ("file_3", FileChange::Modified(md5("1deb21ef3bb87be4ad71d73fff6bb8ec"))),
                ("file_2", FileChange::Deleted),
                ("file_1", FileChange::Unmodified(md5("1cfab2a192005a9a8bdc69106b4627e2"))),
            ])),
        ),
    ];
    assert_conversion(ops_v1, ops_v2);
}

fn named_v1(piles: Vec<(&str, PileV1)>) -> HoardV1 {
    let mut map = AssocList::new();
    for (name, pile) in piles {
        map.insert(name.to_string(), pile);
    }
    HoardV1::Named(map)
}

#[test]
fn test_from_named() {
    let hoard_name = "anon_file";
    let ops_v1 = vec![
        v1_op(
            10,
            true,
            hoard_name,
            named_v1(vec![
                ("single_file", v1_pile(&[("", "d3369a026ace494f56ead54d502a00dd")])),
                (
                    "dir",
                    v1_pile(&[
                        ("file_1", "ba9d332813a722b273a95fa13dd88d94"),
                        ("file_2", "92ed3b5f07b44bc4f70d0b24d5e1867c"),
                    ]),
                ),
            ]),
        ),
        v1_op(
            8,
            true,
            hoard_name,
            named_v1(vec![
                ("single_file", v1_pile(&[("", "d3369a026ace494f56ead54d502a00dd")])),
                (
                    "dir",
                    v1_pile(&[
                        ("file_1", "1cfab2a192005a9a8bdc69106b4627e2"),
                        ("file_2", "92ed3b5f07b44bc4f70d0b24d5e1867c"),
                        ("file_3", "797b373a9c4ec0d6de0a31a90b5bee8e"),
                    ]),
                ),
            ]),
        ),
        v1_op(
            6,
            true,
            hoard_name,
            named_v1(vec![
                ("single_file", v1_pile(&[])),
                (
                    "dir",
                    v1_pile(&[
                        ("file_1", "1cfab2a192005a9a8bdc69106b4627e2"),
                        ("file_3", "1deb21ef3bb87be4ad71d73fff6bb8ec"),
                    ]),
                ),
            ]),
        ),
    ];
    let ops_v2 = vec![
        OperationV2::new(
            ts(10),
            Direction::Backup,
            hoard_name.to_string(),
            named(vec![
                ("single_file", v2_pile(vec![("", FileChange::Created(md5("d3369a026ace494f56ead54d502a00dd")))])),
                (
                    "dir",
                    v2_pile(vec![
                        ("file_1", FileChange::Created(md5("ba9d332813a722b273a95fa13dd88d94"))),
                        ("file_2", FileChange::Created(md5("92ed3b5f07b44bc4f70d0b24d5e1867c"))),
                    ]),
                ),
            ]),
        ),
        OperationV2::new(
            ts(8),
            Direction::Backup,
            hoard_name.to_string(),
            named(vec![
                ("single_file", v2_pile(vec![("", FileChange::Unmodified(md5("d3369a026ace494f56ead54d502a00dd")))])),
                (
                    "dir",
                    v2_pile(vec![
                        ("file_3", FileChange::Created(md5("797b373a9c4ec0d6de0a31a90b5bee8e"))),
                        ("file_1", FileChange::Modified(md5("1cfab2a192005a9a8bdc69106b4627e2"))),
                        ("file_2", FileChange::Unmodified(md5("92ed3b5f07b44bc4f70d0b24d5e1867c"))),
                    ]),
                ),
            ]),
        ),
        OperationV2::new(
            ts(6),
            Direction::Backup,
            hoard_name.to_string(),
            named(vec![
                ("single_file", v2_pile(vec![("", FileChange::Deleted)])),
                (
                    "dir",
                    v2_pile(vec![
                        ("file_3", FileChange::Modified(md5("1deb21ef3bb87be4ad71d73fff6bb8ec"))),
                        ("file_2", FileChange::Deleted),
                        ("file_1", FileChange::Unmodified(md5("1cfab2a192005a9a8bdc69106b4627e2"))),
                    ]),
                ),
            ]),
        ),
    ];
    assert_conversion(ops_v1, ops_v2);
}

#[test]
fn upgrade_of_empty_first_log_records_root_deleted() {
    let mut mapping: AssocList<PileFile, LastChecksum> = AssocList::new();
    let mut file_set: AssocList<PileFile, ()> = AssocList::new();
    let op = OperationV2::from_v1(&mut mapping, &mut file_set, v1_op(1, true, "h", HoardV1::Anonymous(v1_pile(&[]))));
    let expected = OperationV2::new(ts(1), Direction::Backup, "h".to_string(), Hoard::Anonymous(v2_pile(vec![("", FileChange::Deleted)])));
    assert_eq!(expected, op);
}

#[test]
fn upgrade_records_a_file_back_after_deletion_as_created() {
    let ops = vec![
        Operation::V1(v1_op(1, true, "h", HoardV1::Anonymous(v1_pile(&[("a", "aa"), ("b", "bb")])))),
        Operation::V1(v1_op(2, true, "h", HoardV1::Anonymous(v1_pile(&[("a", "aa")])))),
        Operation::V1(v1_op(3, false, "h", HoardV1::Anonymous(v1_pile(&[("a", "a2"), ("b", "bb")])))),
    ];
    let r = upgrade_operations(ops);
    assert_eq!(r.len(), 3);
    let third = OperationV2::new(
        ts(3),
        Direction::Restore,
        "h".to_string(),
        Hoard::Anonymous(v2_pile(vec![
            ("a", FileChange::Modified(md5("a2"))),
            ("b", FileChange::Created(md5("bb"))),
        ])),
    );
    assert_eq!(r[2], third);
    let second = OperationV2::new(
        ts(2),
        Direction::Backup,
        "h".to_string(),
        Hoard::Anonymous(v2_pile(vec![("a", FileChange::Unmodified(md5("aa"))), ("b", FileChange::Deleted)])),
    );
    assert_eq!(r[1], second);
}

#[test]
fn upgrade_leaves_v2_logs_unchanged() {
    let first = OperationV2::new(
        ts(1),
        Direction::Backup,
        "h".to_string(),
        Hoard::Anonymous(v2_pile(vec![("x", FileChange::Created(md5("11")))])),
    );
    let copy = OperationV2::new(
        ts(1),
        Direction::Backup,
        "h".to_string(),
        Hoard::Anonymous(v2_pile(vec![("x", FileChange::Created(md5("11")))])),
    );
    let ops = vec![Operation::V2(first), Operation::V1(v1_op(2, true, "h", HoardV1::Anonymous(v1_pile(&[("x", "11")]))))];
    let r = upgrade_operations(ops);
    assert_eq!(r[0], copy);
    let expected = OperationV2::new(
        ts(2),
        Direction::Backup,
        "h".to_string(),
        Hoard::Anonymous(v2_pile(vec![("x", FileChange::Created(md5("11")))])),
    );
    assert_eq!(r[1], expected);
}

#[test]
fn upgrade_shape_each_present_file_once() {
    let mut mapping: AssocList<PileFile, LastChecksum> = AssocList::new();
    let mut file_set: AssocList<PileFile, ()> = AssocList::new();
    let _ = OperationV2::from_v1(&mut mapping, &mut file_set, v1_op(1, true, "h", HoardV1::Anonymous(v1_pile(&[("a", "1"), ("b", "2")]))));
    let op = OperationV2::from_v1(&mut mapping, &mut file_set, v1_op(2, true, "h", HoardV1::Anonymous(v1_pile(&[("a", "1"), ("c", "3")]))));
    let a = "a".to_string();
    let b = "b".to_string();
    let c = "c".to_string();
    assert!(op.contains_file(None, &a, false));
    assert!(!op.contains_file(None, &a, true));
    assert!(op.contains_file(None, &b, true));
    assert!(op.checksum_for(None, &b).is_none());
    assert_eq!(op.checksum_for(None, &c), Some(md5("3")));
    assert_eq!(file_set.len(), 2);
}
