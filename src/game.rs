//! The games list: for each game, the save path of each of its game types.

use vstd::prelude::*;
use crate::assoc::{AssocList, ViewKey};

verus! {

/// The kind of installation a save path belongs to, by its name.
#[derive(Clone, Debug)]
pub struct GameType(pub String);

impl View for GameType {
    type V = Seq<char>;

    open spec fn view(&self) -> Seq<char> {
        self.0@
    }
}

impl ViewKey for GameType {
    fn same_key(&self, other: &Self) -> (r: bool) {
        self.0.eq(&other.0)
    }

    fn copy_key(&self) -> (r: Self) {
        GameType(self.0.clone())
    }
}

/// The save paths of one game, by game type.
pub type Game = AssocList<GameType, String>;

/// All games, by name.
pub type Games = AssocList<String, Game>;

/// The save paths of a game in a list, none if the game is not there.
pub open spec fn game_entry(games: Map<Seq<char>, Map<Seq<char>, Seq<char>>>, game: Seq<char>) -> Map<Seq<char>, Seq<char>> {
    if games.contains_key(game) {
        games[game]
    } else {
        Map::empty()
    }
}

/// Adds a save path for a game of a given type.
#[derive(Clone, Debug)]
pub struct AddGame {
    pub game: String,
    pub ty: GameType,
    pub path: String,
    /// Replace a path that is already there.
    pub force: bool,
}

/// Why the games list could not be changed.
#[derive(Debug)]
pub enum Error {
    /// The game already has a path for that type (the path is given), and
    /// replacing it was not asked for.
    GameOfTypeExists(AddGame, String),
}

impl AddGame {
    /// A copy with the same fields.
    pub fn duplicate(&self) -> (r: AddGame)
        ensures
            r.game@ == self.game@,
            r.ty@ == self.ty@,
            r.path@ == self.path@,
            r.force == self.force,
    {
        AddGame { game: self.game.clone(), ty: self.ty.copy_key(), path: self.path.clone(), force: self.force }
    }

    /// Adds the path to the games list. Without `force`, a path that the game
    /// already has for the type is an error and the list stays as it was.
    pub fn add_game(&self, games: &mut Games) -> (r: Result<(), Error>)
        ensures
            r is Ok <==> (self.force || !game_entry(old(games)@, self.game@).contains_key(self.ty@)),
            r is Ok ==> final(games)@ == old(games)@.insert(
                self.game@,
                game_entry(old(games)@, self.game@).insert(self.ty@, self.path@),
            ),
            r matches Err(Error::GameOfTypeExists(a, p)) ==> final(games)@ == old(games)@ && a.game@ == self.game@
                && a.ty@ == self.ty@ && a.path@ == self.path@ && a.force == self.force
                && p@ == game_entry(old(games)@, self.game@)[self.ty@],
    {
        if !self.force {
            match games.get(&self.game) {
                Some(game) => match game.get(&self.ty) {
                    Some(item) => {
                        return Err(Error::GameOfTypeExists(self.duplicate(), item.clone()));
                    },
                    None => {},
                },
                None => {},
            }
        }
        let mut game = match games.take(&self.game) {
            Some(g) => g,
            None => AssocList::new(),
        };
        game.insert(self.ty.copy_key(), self.path.clone());
        games.insert(self.game.clone(), game);
        proof {
            assert(games@ =~= old(games)@.insert(
                self.game@,
                game_entry(old(games)@, self.game@).insert(self.ty@, self.path@),
            ));
        }
        Ok(())
    }
}

/// Removes a game's save path for one type, or the whole game.
#[derive(Clone, Debug)]
pub struct RemoveGame {
    pub game: String,
    pub ty: Option<GameType>,
}

impl RemoveGame {
    /// Removes the entry from the games list. With a type, the game stays in
    /// the list without that type's path; without one, the game goes.
    pub fn remove_game(&self, games: &mut Games) -> (r: Result<(), Error>)
        ensures
            r is Ok,
            self.ty matches Some(t) ==> final(games)@ == old(games)@.insert(
                self.game@,
                game_entry(old(games)@, self.game@).remove(t@),
            ),
            self.ty is None ==> final(games)@ == old(games)@.remove(self.game@),
    {
        let mut game = match games.take(&self.game) {
            Some(g) => g,
            None => AssocList::new(),
        };
        match &self.ty {
            Some(ty) => {
                let _old_path = game.take(ty);
                games.insert(self.game.clone(), game);
                proof {
                    assert(games@ =~= old(games)@.insert(
                        self.game@,
                        game_entry(old(games)@, self.game@).remove(ty@),
                    ));
                }
            },
            None => {},
        }
        Ok(())
    }
}

/// A change to the games list.
#[derive(Clone, Debug)]
pub enum Command {
    Add(AddGame),
    Remove(RemoveGame),
}

impl Command {
    /// Applies the change to the games list.
    pub fn run(&self, games: &mut Games) -> (r: Result<(), Error>)
        ensures
            self matches Command::Add(a) ==> (r is Ok <==> (a.force || !game_entry(old(games)@, a.game@).contains_key(a.ty@)))
                && (r is Ok ==> final(games)@ == old(games)@.insert(
                a.game@,
                game_entry(old(games)@, a.game@).insert(a.ty@, a.path@),
            )) && (r is Err ==> final(games)@ == old(games)@),
            self matches Command::Remove(d) ==> r is Ok && (d.ty matches Some(t) ==> final(games)@ == old(games)@.insert(
                d.game@,
                game_entry(old(games)@, d.game@).remove(t@),
            )) && (d.ty is None ==> final(games)@ == old(games)@.remove(d.game@)),
    {
        match self {
            Command::Add(adder) => adder.add_game(games),
            Command::Remove(remover) => remover.remove_game(games),
        }
    }
}

} // verus!
