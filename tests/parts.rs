use hoard::checksum::Checksum;
use hoard::log::{FileChange, Pile};
use hoard::parts::PileParts;

fn md5(hex: &str) -> Checksum {
    Checksum::MD5(hex.to_string())
}

#[test]
fn pile_survives_the_stored_shape() {
    let mut pile = Pile::new();
    pile.record("a".to_string(), FileChange::Created(md5("1")));
    pile.record("b".to_string(), FileChange::Modified(md5("2")));
    pile.record("c".to_string(), FileChange::Unmodified(md5("3")));
    pile.record("d".to_string(), FileChange::Deleted);
    let parts = pile.to_parts();
    assert_eq!(parts.created, vec![("a".to_string(), md5("1"))]);
    assert_eq!(parts.modified, vec![("b".to_string(), md5("2"))]);
    assert_eq!(parts.unmodified, vec![("c".to_string(), md5("3"))]);
    assert_eq!(parts.deleted, vec!["d".to_string()]);
    let back = Pile::from_parts(&parts).unwrap();
    assert_eq!(back, pile);
}

#[test]
fn a_path_in_two_collections_is_refused() {
    let parts = PileParts {
        created: vec![("a".to_string(), md5("1"))],
        modified: Vec::new(),
        unmodified: Vec::new(),
        deleted: vec!["a".to_string()],
    };
    assert_eq!(Pile::from_parts(&parts).unwrap_err(), "a");
    let twice = PileParts {
        created: Vec::new(),
        modified: vec![("x".to_string(), md5("1")), ("x".to_string(), md5("2"))],
        unmodified: Vec::new(),
        deleted: Vec::new(),
    };
    assert_eq!(Pile::from_parts(&twice).unwrap_err(), "x");
}
