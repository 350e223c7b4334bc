//! The two sides of the game.

use vstd::prelude::*;
use vstd::string::StringExecFns;

verus! {

/// Associates a piece with a player.
#[derive(Debug, Copy, Clone, PartialEq, Eq, Structural)]
pub enum Color {
    Black,
    White,
}

impl Color {
    /// The other side.
    pub open spec fn opponent(self) -> Color {
        match self {
            Color::Black => Color::White,
            Color::White => Color::Black,
        }
    }

    /// The name of the side as it is shown to players.
    pub open spec fn text(self) -> Seq<char> {
        match self {
            Color::Black => "Black"@,
            Color::White => "White"@,
        }
    }

    /// Flipping a piece results in a piece of opposite color.
    pub fn flip(&self) -> (flipped: Color)
        ensures
            flipped == self.opponent(),
    {
        match *self {
            Color::Black => Color::White,
            Color::White => Color::Black,
        }
    }

    /// Renders the side as `Black` or `White`.
    pub fn to_string(&self) -> (s: String)
        ensures
            s@ == self.text(),
    {
        match *self {
            Color::Black => String::from_str("Black"),
            Color::White => String::from_str("White"),
        }
    }
}

/// Flipping twice gives the piece its first color back, and flipping never
/// keeps a color.
pub proof fn lemma_opponent_involution(c: Color)
    ensures
        c.opponent().opponent() == c,
        c.opponent() != c,
{
}

} // verus!
