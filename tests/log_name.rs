use hoard::log::Timestamp;
use hoard::log_name::{file_is_log, name_lt};
use hoard::retention::is_system_dir_name;

#[test]
fn log_file_names_are_accepted() {
    assert!(file_is_log("2024_01_02-03_04_05.000000.log"));
    assert!(file_is_log("1999_12_31-23_59_59.999999.log"));
}

#[test]
fn other_file_names_are_rejected() {
    assert!(!file_is_log("2024-01-02T03:04:05.log"));
    assert!(!file_is_log("last_paths.json"));
    assert!(!file_is_log("2024_01_02-03_04_05.log"));
    assert!(!file_is_log("2024_01_02-03_04_05.000000.log.tmp"));
    assert!(!file_is_log("x2024_01_02-03_04_05.000000.log"));
    assert!(!file_is_log(""));
}

#[test]
fn name_order_follows_time() {
    assert!(name_lt("2024_01_02-03_04_05.000000.log", "2024_01_02-03_04_05.000001.log"));
    assert!(name_lt("2023_12_31-23_59_59.999999.log", "2024_01_01-00_00_00.000000.log"));
    assert!(!name_lt("2024_01_02-03_04_05.000000.log", "2024_01_02-03_04_05.000000.log"));
    assert!(!name_lt("2024_02_01-00_00_00.000000.log", "2024_01_31-00_00_00.000000.log"));
    assert!(name_lt("", "a"));
    assert!(name_lt("ab", "abc"));
}

#[test]
fn system_directories_are_named_by_uuid() {
    assert!(is_system_dir_name("550e8400-e29b-41d4-a716-446655440000"));
    assert!(!is_system_dir_name("not-a-uuid"));
    assert!(is_system_dir_name("550E8400E29B41D4A716446655440000"));
    assert!(is_system_dir_name("{550e8400-e29b-41d4-a716-446655440000}"));
    assert!(is_system_dir_name("URN:uuid:550e8400-e29b-41d4-a716-446655440000"));
    assert!(!is_system_dir_name("550e8400-e29b-41d4-a716-44665544000g"));
    assert!(!is_system_dir_name("550e8400e29b-41d4-a716-4466554400000"));
    assert!(!is_system_dir_name(""));
}

#[test]
fn log_file_names_are_formatted_from_timestamps() {
    let a = Timestamp::new(2024, 1, 2, 3, 4, 5, 0).unwrap();
    assert_eq!(a.log_file_name(), "2024_01_02-03_04_05.000000.log");
    let b = Timestamp::new(987, 12, 31, 23, 59, 59, 42).unwrap();
    assert_eq!(b.log_file_name(), "0987_12_31-23_59_59.000042.log");
    assert!(file_is_log(&b.log_file_name()));
    assert!(name_lt(&b.log_file_name(), &a.log_file_name()));
}
