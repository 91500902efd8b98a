use hoard::assoc::AssocList;
use hoard::game::{AddGame, Command, Error, GameType, Games, RemoveGame};

fn add(game: &str, ty: &str, path: &str, force: bool) -> AddGame {
    AddGame { game: game.to_string(), ty: GameType(ty.to_string()), path: path.to_string(), force }
}

fn path_of(games: &Games, game: &str, ty: &str) -> Option<String> {
    games.get(&game.to_string()).and_then(|g| g.get(&GameType(ty.to_string())).cloned())
}

#[test]
fn adding_a_game_records_its_path() {
    let mut games: Games = AssocList::new();
    add("celeste", "steam", "/saves/celeste", false).add_game(&mut games).unwrap();
    add("celeste", "gog", "/gog/celeste", false).add_game(&mut games).unwrap();
    assert_eq!(path_of(&games, "celeste", "steam"), Some("/saves/celeste".to_string()));
    assert_eq!(path_of(&games, "celeste", "gog"), Some("/gog/celeste".to_string()));
    assert_eq!(games.len(), 1);
}

#[test]
fn existing_path_is_not_replaced_without_force() {
    let mut games: Games = AssocList::new();
    add("celeste", "steam", "/a", false).add_game(&mut games).unwrap();
    match add("celeste", "steam", "/b", false).add_game(&mut games) {
        Err(Error::GameOfTypeExists(a, existing)) => {
            assert_eq!(existing, "/a");
            assert_eq!(a.path, "/b");
        },
        Ok(()) => panic!("expected an error"),
    }
    assert_eq!(path_of(&games, "celeste", "steam"), Some("/a".to_string()));
    add("celeste", "steam", "/b", true).add_game(&mut games).unwrap();
    assert_eq!(path_of(&games, "celeste", "steam"), Some("/b".to_string()));
}

#[test]
fn removing_by_type_or_whole_game() {
    let mut games: Games = AssocList::new();
    Command::Add(add("celeste", "steam", "/a", false)).run(&mut games).unwrap();
    Command::Add(add("celeste", "gog", "/g", false)).run(&mut games).unwrap();
    Command::Add(add("hades", "steam", "/h", false)).run(&mut games).unwrap();
    let remove_type = RemoveGame { game: "celeste".to_string(), ty: Some(GameType("steam".to_string())) };
    remove_type.remove_game(&mut games).unwrap();
    assert_eq!(path_of(&games, "celeste", "steam"), None);
    assert_eq!(path_of(&games, "celeste", "gog"), Some("/g".to_string()));
    Command::Remove(RemoveGame { game: "hades".to_string(), ty: None }).run(&mut games).unwrap();
    assert!(games.get(&"hades".to_string()).is_none());
    assert_eq!(games.len(), 1);
}
