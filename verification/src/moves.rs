//! Moves and their application to a board.

use vstd::prelude::*;
use crate::board::{Board, BoardState};
use crate::cell::{Cell, Player};
use crate::geometry::{square, square_at, square_of, squares_of};

verus! {

/// Mathematical model of a move: the squares that the mover's piece will
/// cover, and the squares of the two neutral pieces after the move.
pub struct Move {
    pub piece: Seq<(int, int)>,
    pub neutrals: Seq<(int, int)>,
}

/// A move: the four squares `[x, y]` that the mover's piece will cover, and
/// the squares of the two neutral pieces after the move.
#[allow(non_snake_case)]
#[derive(Clone, Copy, Debug, PartialEq, Eq)]
pub struct BoardMove {
    pub lPiece: [[i32; 2]; 4],
    pub neutralPieces: [[i32; 2]; 2],
}

impl View for BoardMove {
    type V = Move;

    open spec fn view(&self) -> Move {
        Move { piece: squares_of(self.lPiece@), neutrals: squares_of(self.neutralPieces@) }
    }
}

/// The moves that a sequence of executable moves stands for.
pub open spec fn moves_of(ms: Seq<BoardMove>) -> Seq<Move> {
    ms.map_values(|m: BoardMove| m@)
}

/// Whether both scores lie within the range of `i32`.
pub open spec fn scores_fit(scores: (int, int)) -> bool {
    i32::MIN <= scores.0 <= i32::MAX && i32::MIN <= scores.1 <= i32::MAX
}

impl Board {
    /// The content of the square with index `i` once `m` has been played: a
    /// neutral piece where `m` puts one, else the mover's piece where `m` puts
    /// it; the squares that the mover's piece and the neutral pieces leave
    /// become empty; the opponent's piece stays.
    pub open spec fn cell_after(self, m: Move, i: int) -> Cell {
        let p = square_at(i);
        if m.neutrals.contains(p) {
            Cell::Neutral
        } else if m.piece.contains(p) {
            self.to_move.piece()
        } else if self.cells[i] == self.to_move.piece() || self.cells[i] == Cell::Neutral {
            Cell::Empty
        } else {
            self.cells[i]
        }
    }

    /// The grid once `m` has been played.
    pub open spec fn cells_after(self, m: Move) -> Seq<Cell> {
        Seq::new(16, |i: int| self.cell_after(m, i))
    }

    /// Whether `player` has a cell of its piece on one of the four corners
    /// of `cells`.
    pub open spec fn on_corner(cells: Seq<Cell>, player: Player) -> bool {
        ||| cells[0] == player.piece()
        ||| cells[3] == player.piece()
        ||| cells[12] == player.piece()
        ||| cells[15] == player.piece()
    }

    /// The scores with one point more for `player`.
    pub open spec fn scores_with_point(self, player: Player) -> (int, int) {
        match player {
            Player::Player1 => (self.scores.0 + 1, self.scores.1),
            Player::Player2 => (self.scores.0, self.scores.1 + 1),
        }
    }

    /// The board that results when the side to move plays `m`: the pieces are
    /// moved, the mover gains one point if its piece then covers a corner,
    /// and the turn passes to the other side.
    pub open spec fn apply(self, m: Move) -> Board {
        let cells = self.cells_after(m);
        Board {
            cells,
            to_move: self.to_move.opponent(),
            scores: if Self::on_corner(cells, self.to_move) {
                self.scores_with_point(self.to_move)
            } else {
                self.scores
            },
        }
    }
}

/// A move changes no score but the mover's, and that by one point or not at
/// all: by one point exactly when the mover's piece covers a corner once the
/// move has been played. The turn passes to the other side.
pub proof fn lemma_apply_scores(b: Board, m: Move)
    ensures
        b.apply(m).to_move == b.to_move.opponent(),
        b.apply(m).score_of(b.to_move.opponent()) == b.score_of(b.to_move.opponent()),
        b.apply(m).score_of(b.to_move) == b.score_of(b.to_move) + (if Board::on_corner(
            b.cells_after(m),
            b.to_move,
        ) {
            1int
        } else {
            0int
        }),
        b.score_of(b.to_move) <= b.apply(m).score_of(b.to_move) <= b.score_of(b.to_move) + 1,
{
}

/// A position is determined by what it stands for: two positions with the
/// same cells, side to move and scores are the same value.
pub proof fn lemma_position_determined(first: BoardState, second: BoardState)
    requires
        first@ == second@,
    ensures
        first == second,
{
    assert(first.board@ == second.board@);
    assert(first.board =~= second.board);
}

/// Playing one move on one position gives one result: any two positions that
/// both stand for the board after the move are equal in every cell, in the
/// side to move and in both scores.
pub proof fn lemma_apply_move_deterministic(
    state: BoardState,
    board_move: BoardMove,
    first: BoardState,
    second: BoardState,
)
    requires
        first@ == state@.apply(board_move@),
        second@ == state@.apply(board_move@),
    ensures
        first == second,
{
    lemma_position_determined(first, second);
}

/// Whether the square `(x, y)` is one of `squares`.
pub fn lists_square(squares: &[[i32; 2]], x: i32, y: i32) -> (found: bool)
    ensures
        found == squares_of(squares@).contains((x as int, y as int)),
{
    let n: usize = squares.len();
    for k in 0..n
        invariant
            n == squares@.len(),
            forall|j: int| 0 <= j < k ==> squares_of(squares@)[j] != (x as int, y as int),
    {
        if squares[k][0] == x && squares[k][1] == y {
            assert(squares_of(squares@)[k as int] == (x as int, y as int));
            return true;
        }
    }
    false
}

impl BoardState {
    /// The grid once `board_move` has been played.
    pub fn cells_after(&self, board_move: &BoardMove) -> (cells: [Cell; 16])
        ensures
            cells@ == self@.cells_after(board_move@),
    {
        let mover: Cell = self.current_player.cell();
        let mut cells: [Cell; 16] = self.board;
        for i in 0..16usize
            invariant
                mover == self@.to_move.piece(),
                forall|j: int| 0 <= j < i ==> cells@[j] == self@.cell_after(board_move@, j),
                forall|j: int| i <= j < 16 ==> cells@[j] == self@.cells[j],
        {
            let p = square(i);
            let was: Cell = self.board[i];
            let now: Cell = if lists_square(&board_move.neutralPieces, p[0], p[1]) {
                Cell::Neutral
            } else if lists_square(&board_move.lPiece, p[0], p[1]) {
                mover
            } else if was == mover || was == Cell::Neutral {
                Cell::Empty
            } else {
                was
            };
            cells[i] = now;
        }
        assert(cells@ =~= self@.cells_after(board_move@));
        cells
    }

    /// Plays `board_move` as `apply_move` does, unless a score would leave
    /// the range of `i32`: then there is no result.
    pub fn checked_apply_move(&self, board_move: &BoardMove) -> (next: Option<BoardState>)
        ensures
            next is Some <==> scores_fit(self@.apply(board_move@).scores),
            next matches Some(state) ==> state@ == self@.apply(board_move@),
            next matches Some(state) ==> state@.score_of(self@.to_move.opponent())
                == self@.score_of(self@.to_move.opponent()),
            next matches Some(state) ==> self@.score_of(self@.to_move) <= state@.score_of(
                self@.to_move,
            ) <= self@.score_of(self@.to_move) + 1,
    {
        let cells = self.cells_after(board_move);
        let mover: Cell = self.current_player.cell();
        let scores: i32 = match self.current_player {
            Player::Player1 => self.scores.0,
            Player::Player2 => self.scores.1,
        };
        let scored: bool = cells[0] == mover || cells[3] == mover || cells[12] == mover
            || cells[15] == mover;
        if scored && scores == i32::MAX {
            None
        } else {
            Some(self.apply_move(board_move))
        }
    }

    /// Plays `board_move` for the side to move and returns the resulting
    /// position; `self` is left as it is. The move is not checked against the
    /// rules: it is meant to come from the legal moves of this position.
    pub fn apply_move(&self, board_move: &BoardMove) -> (next: BoardState)
        requires
            scores_fit(self@.apply(board_move@).scores),
        ensures
            next@ == self@.apply(board_move@),
            next@.score_of(self@.to_move.opponent()) == self@.score_of(self@.to_move.opponent()),
            self@.score_of(self@.to_move) <= next@.score_of(self@.to_move) <= self@.score_of(
                self@.to_move,
            ) + 1,
    {
        let cells = self.cells_after(board_move);
        let mover: Cell = self.current_player.cell();
        let mut scores: (i32, i32) = self.scores;
        if cells[0] == mover || cells[3] == mover || cells[12] == mover || cells[15] == mover {
            match self.current_player {
                Player::Player1 => { scores = (self.scores.0 + 1, self.scores.1); },
                Player::Player2 => { scores = (self.scores.0, self.scores.1 + 1); },
            }
        }
        BoardState { board: cells, current_player: self.current_player.other(), scores }
    }
}

} // verus!
