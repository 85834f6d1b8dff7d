//! Cell contents, the two sides, and their integer codes on the wire.

use vstd::prelude::*;

verus! {

/// One of the two sides.
#[derive(Clone, Copy, Debug, PartialEq, Eq, Structural)]
pub enum Player {
    Player1,
    Player2,
}

/// What a single square of the board holds.
#[derive(Clone, Copy, Debug, PartialEq, Eq, Structural)]
pub enum Cell {
    Empty,
    Player1,
    Player2,
    Neutral,
}

/// The side that the integer `code` stands for: 1 and 2 name the two sides,
/// every other integer names none.
pub open spec fn player_of_code(code: int) -> Option<Player> {
    if code == 1 {
        Some(Player::Player1)
    } else if code == 2 {
        Some(Player::Player2)
    } else {
        None
    }
}

/// The cell value that the integer `code` stands for: 0 is empty, 1 and 2 are
/// the two sides, 4 is a neutral piece, every other integer is no cell value.
pub open spec fn cell_of_code(code: int) -> Option<Cell> {
    if code == 0 {
        Some(Cell::Empty)
    } else if code == 1 {
        Some(Cell::Player1)
    } else if code == 2 {
        Some(Cell::Player2)
    } else if code == 4 {
        Some(Cell::Neutral)
    } else {
        None
    }
}

impl Player {
    /// The other of the two sides.
    pub open spec fn opponent(self) -> Player {
        match self {
            Player::Player1 => Player::Player2,
            Player::Player2 => Player::Player1,
        }
    }

    /// The cell value that marks a square held by this side.
    pub open spec fn piece(self) -> Cell {
        match self {
            Player::Player1 => Cell::Player1,
            Player::Player2 => Cell::Player2,
        }
    }

    /// The integer that stands for this side.
    pub open spec fn spec_code(self) -> int {
        match self {
            Player::Player1 => 1,
            Player::Player2 => 2,
        }
    }

    /// The other of the two sides.
    pub fn other(self) -> (r: Player)
        ensures
            r == self.opponent(),
    {
        match self {
            Player::Player1 => Player::Player2,
            Player::Player2 => Player::Player1,
        }
    }

    /// The cell value that marks a square held by this side.
    pub fn cell(self) -> (r: Cell)
        ensures
            r == self.piece(),
    {
        match self {
            Player::Player1 => Cell::Player1,
            Player::Player2 => Cell::Player2,
        }
    }

    /// The integer that stands for this side.
    pub fn code(self) -> (r: u8)
        ensures
            r == self.spec_code(),
            player_of_code(r as int) == Some(self),
    {
        match self {
            Player::Player1 => 1,
            Player::Player2 => 2,
        }
    }

    /// Reads a side from its integer code.
    pub fn from_code(code: u8) -> (r: Option<Player>)
        ensures
            r == player_of_code(code as int),
    {
        if code == 1 {
            Some(Player::Player1)
        } else if code == 2 {
            Some(Player::Player2)
        } else {
            None
        }
    }
}

impl Cell {
    /// The integer that stands for this cell value.
    pub open spec fn spec_code(self) -> int {
        match self {
            Cell::Empty => 0,
            Cell::Player1 => 1,
            Cell::Player2 => 2,
            Cell::Neutral => 4,
        }
    }

    /// The integer that stands for this cell value.
    pub fn code(self) -> (r: u8)
        ensures
            r == self.spec_code(),
            cell_of_code(r as int) == Some(self),
    {
        match self {
            Cell::Empty => 0,
            Cell::Player1 => 1,
            Cell::Player2 => 2,
            Cell::Neutral => 4,
        }
    }

    /// Reads a cell value from its integer code.
    pub fn from_code(code: u8) -> (r: Option<Cell>)
        ensures
            r == cell_of_code(code as int),
    {
        if code == 0 {
            Some(Cell::Empty)
        } else if code == 1 {
            Some(Cell::Player1)
        } else if code == 2 {
            Some(Cell::Player2)
        } else if code == 4 {
            Some(Cell::Neutral)
        } else {
            None
        }
    }
}

} // verus!
