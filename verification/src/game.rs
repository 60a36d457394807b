//! The games whose files the library reads and writes.
use vstd::prelude::*;

verus! {

/// A game of the series.
#[derive(Debug, Clone, Copy, PartialEq, Eq, Structural)]
pub enum Game {
    THPS4,
    THUG,
    THUG2,
}

/// The name of a game, as it is written.
pub open spec fn game_name(g: Game) -> Seq<char> {
    match g {
        Game::THPS4 => "THPS4"@,
        Game::THUG => "THUG"@,
        Game::THUG2 => "THUG2"@,
    }
}

impl Game {
    /// The name of the game.
    pub fn to_string(&self) -> (r: String)
        ensures
            r@ == game_name(*self),
    {
        match self {
            Game::THPS4 => "THPS4".to_owned(),
            Game::THUG => "THUG".to_owned(),
            Game::THUG2 => "THUG2".to_owned(),
        }
    }
}

} // verus!
