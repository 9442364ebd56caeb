//! A single grid position.

use vstd::prelude::*;
use vstd::string::StringExecFns;
use crate::text::{decimal, decimal_string};

verus! {

/// Hint value stored in a revealed mine, to tell it apart from a number.
pub const EXPLODED_HINT: u32 = 10;

/// The state of one grid position.
///
/// A hidden tile may carry a flag; a revealed tile carries the number of
/// mines around it (or [`EXPLODED_HINT`] when it is itself a mine).
#[derive(Debug, Clone, Copy, PartialEq, Eq, Structural)]
pub enum Tile {
    Hidden { has_mine: bool, flagged: bool },
    Revealed { has_mine: bool, hint: u32 },
}

impl Tile {
    /// Whether a mine lies under this tile, revealed or not.
    pub open spec fn mined(self) -> bool {
        match self {
            Tile::Hidden { has_mine, .. } => has_mine,
            Tile::Revealed { has_mine, .. } => has_mine,
        }
    }

    /// Whether this tile is hidden and carries a flag.
    pub open spec fn flagged(self) -> bool {
        match self {
            Tile::Hidden { flagged, .. } => flagged,
            Tile::Revealed { .. } => false,
        }
    }

    /// Whether a cascade may uncover this tile: hidden, no mine, no flag.
    pub open spec fn clearable(self) -> bool {
        self == (Tile::Hidden { has_mine: false, flagged: false })
    }

    /// Whether this tile is in the state a won game needs: a safe tile
    /// revealed, or a mine still hidden.
    pub open spec fn settled(self) -> bool {
        match self {
            Tile::Hidden { has_mine, .. } => has_mine,
            Tile::Revealed { has_mine, .. } => !has_mine,
        }
    }

    /// The tile with a mine laid under it, if it is hidden and has none yet.
    pub open spec fn with_mine(self) -> Tile {
        match self {
            Tile::Hidden { has_mine: false, flagged } => Tile::Hidden { has_mine: true, flagged },
            _ => self,
        }
    }

    /// The tile as it is shown once the game is lost: a hidden mine is
    /// uncovered, everything else stays.
    pub open spec fn exposed(self) -> Tile {
        match self {
            Tile::Hidden { has_mine: true, .. } => Tile::Revealed {
                has_mine: true,
                hint: EXPLODED_HINT,
            },
            _ => self,
        }
    }

    /// The three characters that show this tile: a flag, an uncovered mine,
    /// the hint of an uncovered safe tile between two spaces, or a dash for a
    /// hidden tile without a flag.
    pub open spec fn glyph(self) -> Seq<char> {
        match self {
            Tile::Hidden { flagged: true, .. } => seq![' ', 'F', ' '],
            Tile::Hidden { flagged: false, .. } => seq![' ', '-', ' '],
            Tile::Revealed { has_mine: true, .. } => seq![' ', 'X', ' '],
            Tile::Revealed { has_mine: false, hint } => seq![' '] + decimal(hint as nat) + seq![' '],
        }
    }

    /// The text that shows this tile.
    pub fn represent(&self) -> (text: String)
        ensures
            text@ == self.glyph(),
    {
        proof {
            reveal_strlit(" F ");
            reveal_strlit(" - ");
            reveal_strlit(" X ");
            reveal_strlit(" ");
        }
        match self {
            Tile::Hidden { flagged: true, .. } => {
                let text = String::from_str(" F ");
                assert(text@ =~= self.glyph());
                text
            },
            Tile::Hidden { flagged: false, .. } => {
                let text = String::from_str(" - ");
                assert(text@ =~= self.glyph());
                text
            },
            Tile::Revealed { has_mine: true, .. } => {
                let text = String::from_str(" X ");
                assert(text@ =~= self.glyph());
                text
            },
            Tile::Revealed { has_mine: false, hint } => {
                let mut text = String::from_str(" ");
                let number = decimal_string(*hint);
                text.append(number.as_str());
                text.append(" ");
                assert(text@ =~= self.glyph());
                text
            },
        }
    }

    pub fn has_mine(&self) -> (b: bool)
        ensures
            b == self.mined(),
    {
        match self {
            Tile::Hidden { has_mine, .. } => *has_mine,
            Tile::Revealed { has_mine, .. } => *has_mine,
        }
    }

    pub fn is_hidden(&self) -> (b: bool)
        ensures
            b == (*self is Hidden),
    {
        match self {
            Tile::Hidden { .. } => true,
            Tile::Revealed { .. } => false,
        }
    }

    /// Whether a cascade may uncover this tile.
    pub fn is_clearable(&self) -> (b: bool)
        ensures
            b == self.clearable(),
    {
        match self {
            Tile::Hidden { has_mine: false, flagged: false } => true,
            _ => false,
        }
    }

    /// Whether this tile is as a won game needs it.
    pub fn is_settled(&self) -> (b: bool)
        ensures
            b == self.settled(),
    {
        match self {
            Tile::Hidden { has_mine, .. } => *has_mine,
            Tile::Revealed { has_mine, .. } => !*has_mine,
        }
    }

    pub fn is_flagged(&self) -> (b: bool)
        ensures
            b == self.flagged(),
    {
        match self {
            Tile::Hidden { flagged, .. } => *flagged,
            Tile::Revealed { .. } => false,
        }
    }
}

} // verus!
