use hoard::all_files::AllFilesIter;
use hoard::assoc::AssocList;
use hoard::checksum::ChecksumType;
use hoard::config::{ConfigPile, HoardConfig, PileConfig};
use hoard::filters::Filters;

fn pile(path: Option<&str>, ignore: &[&str]) -> ConfigPile {
    ConfigPile {
        config: PileConfig { checksum_type: ChecksumType::MD5, ignore: ignore.iter().map(|s| s.to_string()).collect() },
        path: path.map(|p| p.to_string()),
    }
}

#[test]
fn filters_leave_out_matching_paths() {
    let f = Filters::new(&pile(None, &["*ignore*"]).config).unwrap();
    assert!(!f.keep(&"ignore.txt".to_string()));
    assert!(f.keep(&"test.txt".to_string()));
    let bad = Filters::new(&pile(None, &["ok", "[unclosed"]).config);
    match bad {
        Err(e) => assert_eq!(e.pattern, "[unclosed"),
        Ok(_) => panic!("expected a pattern error"),
    }
}

#[test]
fn anonymous_hoard_starts_at_its_root() {
    let root = "/data/hoards".to_string();
    let name = "anon_dir".to_string();
    let mut it = AllFilesIter::new(&root, &name, &HoardConfig::Anonymous(pile(Some("/home/u/testdir"), &["*ignore*"]))).unwrap();
    let item = it.pop().unwrap();
    assert!(!item.filters.keep(&"x_ignore_x".to_string()));
    assert_eq!(item.hoard_file.hoard_path(), "/data/hoards/anon_dir");
    assert_eq!(item.hoard_file.system_path(), "/home/u/testdir");
    assert!(it.pop().is_none());
    let no_path = AllFilesIter::new(&root, &name, &HoardConfig::Anonymous(pile(None, &[]))).unwrap();
    let mut no_path = no_path;
    assert!(no_path.pop().is_none());
}

#[test]
fn directory_children_are_the_union_of_both_sides() {
    let root = "/data/hoards".to_string();
    let name = "anon_dir".to_string();
    let mut it = AllFilesIter::new(&root, &name, &HoardConfig::Anonymous(pile(Some("/home/u/testdir"), &["*ignore*"]))).unwrap();
    let item = it.pop().unwrap();
    let system = vec!["test.txt".to_string(), "ignore.txt".to_string(), "sub".to_string()];
    let hoard = vec!["test.txt".to_string(), "test.bin".to_string()];
    assert!(it.visit(item, false, true, &system, &hoard).is_none());
    let mut yielded = Vec::new();
    let mut seen = Vec::new();
    while let Some(child) = it.pop() {
        seen.push(child.hoard_file.relative_path.clone());
        let is_dir = child.hoard_file.relative_path == "sub";
        if let Some(f) = it.visit(child, !is_dir, is_dir, &Vec::new(), &Vec::new()) {
            yielded.push(f.relative_path);
        }
    }
    seen.sort();
    yielded.sort();
    assert_eq!(seen, vec!["ignore.txt", "sub", "test.bin", "test.txt"]);
    assert_eq!(yielded, vec!["test.bin", "test.txt"]);
}

#[test]
fn named_hoard_starts_at_each_pile_with_a_path() {
    let mut piles = AssocList::new();
    piles.insert("text".to_string(), pile(Some("/home/u/named.txt"), &[]));
    piles.insert("binary".to_string(), pile(Some("/home/u/named.bin"), &[]));
    piles.insert("elsewhere".to_string(), pile(None, &[]));
    let mut it = AllFilesIter::new(&"/d".to_string(), &"named".to_string(), &HoardConfig::Named(piles)).unwrap();
    let mut roots = Vec::new();
    while let Some(item) = it.pop() {
        roots.push(item.hoard_file.hoard_path());
    }
    assert_eq!(roots.len(), 2);
    roots.sort();
    assert_eq!(roots, vec!["/d/named/binary", "/d/named/text"]);
}
