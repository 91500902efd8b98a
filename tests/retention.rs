use hoard::log::Direction;
use hoard::retention::{logs_to_delete, retention_step, LogFile, RetentionStep};

fn log(name: &str, direction: Direction) -> LogFile {
    LogFile { name: name.to_string(), direction }
}

#[test]
fn restore_keeps_latest_backup() {
    let logs = vec![
        log("2024_01_01-00_00_00.000000.log", Direction::Backup),
        log("2024_01_02-00_00_00.000000.log", Direction::Backup),
        log("2024_01_03-00_00_00.000000.log", Direction::Restore),
    ];
    assert_eq!(logs_to_delete(&logs), vec![0]);
}

#[test]
fn backup_is_kept_alone() {
    let logs = vec![
        log("2024_01_01-00_00_00.000000.log", Direction::Backup),
        log("2024_01_02-00_00_00.000000.log", Direction::Restore),
        log("2024_01_03-00_00_00.000000.log", Direction::Backup),
    ];
    assert_eq!(logs_to_delete(&logs), vec![0, 1]);
}

#[test]
fn order_of_listing_does_not_matter() {
    let logs = vec![
        log("2024_01_03-00_00_00.000000.log", Direction::Restore),
        log("2024_01_01-00_00_00.000000.log", Direction::Backup),
        log("2024_01_02-00_00_00.000000.log", Direction::Restore),
        log("2024_01_02-00_00_00.000001.log", Direction::Backup),
    ];
    assert_eq!(logs_to_delete(&logs), vec![1, 2]);
}

#[test]
fn only_restores_keep_the_latest() {
    let logs = vec![
        log("2024_01_01-00_00_00.000000.log", Direction::Restore),
        log("2024_01_02-00_00_00.000000.log", Direction::Restore),
    ];
    assert_eq!(logs_to_delete(&logs), vec![0]);
}

#[test]
fn empty_directory_deletes_nothing() {
    assert_eq!(logs_to_delete(&Vec::new()), Vec::<usize>::new());
    let one = vec![log("2024_01_01-00_00_00.000000.log", Direction::Restore)];
    assert_eq!(logs_to_delete(&one), Vec::<usize>::new());
}

fn names(v: &[&str]) -> Vec<String> {
    v.iter().map(|s| s.to_string()).collect()
}

fn read_at(step: RetentionStep) -> usize {
    match step {
        RetentionStep::Read(i) => i,
        RetentionStep::Delete(v) => panic!("expected a read, got deletions {:?}", v),
    }
}

fn deleted(step: RetentionStep) -> Vec<usize> {
    match step {
        RetentionStep::Delete(v) => v,
        RetentionStep::Read(i) => panic!("expected deletions, got a read of {}", i),
    }
}

#[test]
fn scan_reads_back_to_the_latest_backup_only() {
    let n = names(&[
        "2024_01_01-00_00_00.000000.log",
        "2024_01_02-00_00_00.000000.log",
        "2024_01_03-00_00_00.000000.log",
    ]);
    let mut known = vec![None; 3];
    assert_eq!(read_at(retention_step(&n, &known)), 2);
    known[2] = Some(Direction::Restore);
    assert_eq!(read_at(retention_step(&n, &known)), 1);
    known[1] = Some(Direction::Backup);
    assert_eq!(deleted(retention_step(&n, &known)), vec![0]);
}

#[test]
fn scan_stops_at_a_latest_backup() {
    let n = names(&[
        "2024_01_03-00_00_00.000000.log",
        "2024_01_01-00_00_00.000000.log",
        "2024_01_02-00_00_00.000000.log",
    ]);
    let mut known = vec![None; 3];
    assert_eq!(read_at(retention_step(&n, &known)), 0);
    known[0] = Some(Direction::Backup);
    assert_eq!(deleted(retention_step(&n, &known)), vec![1, 2]);
    assert_eq!(deleted(retention_step(&Vec::new(), &Vec::new())), Vec::<usize>::new());
    let only = names(&["2024_01_01-00_00_00.000000.log", "2024_01_02-00_00_00.000000.log"]);
    assert_eq!(deleted(retention_step(&only, &vec![Some(Direction::Restore), Some(Direction::Restore)])), vec![0]);
}
