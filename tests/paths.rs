use hoard::paths::{join, HoardFile, HoardPath, PathExists, SystemPath};

#[test]
fn test_none_is_false() {
    assert!(!TryInto::<bool>::try_into(PathExists(None)).expect("conversion should not fail"));
}

#[test]
fn root_exists() {
    assert_eq!(bool::try_from(PathExists(Some(SystemPath("/".to_string())))), Ok(true));
    assert!(PathExists(Some(SystemPath("/".to_string()))).holds());
    assert!(!PathExists(Some(SystemPath("/no/such/path/for/hoard/tests".to_string()))).holds());
}

#[test]
fn paths_join_with_a_separator() {
    assert_eq!(join(&"/a".to_string(), &"b/c".to_string()), "/a/b/c");
    assert_eq!(join(&"/a".to_string(), &String::new()), "/a");
    let f = HoardFile::new(Some("p".to_string()), HoardPath("/h".to_string()), SystemPath("/s".to_string()), "x".to_string());
    assert_eq!(f.hoard_path(), "/h/x");
    assert_eq!(f.system_path(), "/s/x");
}
