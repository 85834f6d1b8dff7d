//! Enumeration of the legal moves of a position.

use vstd::prelude::*;
use crate::board::{find_squares, squares_holding, Board, BoardState};
use crate::cell::Cell;
use crate::geometry::{footprint, place_piece, square, square_at, square_of, squares_of};
use crate::moves::{moves_of, BoardMove, Move};

verus! {

/// The move that differs from `base` in that neutral piece `slot` stands on
/// the square given.
pub open spec fn relocate(base: Move, slot: int) -> spec_fn((int, int)) -> Move {
    |target: (int, int)| Move { piece: base.piece, neutrals: base.neutrals.update(slot, target) }
}

impl Board {
    /// Whether the mover's piece may cover square `p`: `p` is on the board and
    /// holds neither a neutral piece nor the opponent's piece. A square that
    /// the mover's piece covers now is open to it.
    pub open spec fn open_to_mover(self, p: (int, int)) -> bool {
        match self.value_at(p) {
            Some(c) => c != Cell::Neutral && c != self.to_move.opponent().piece(),
            None => false,
        }
    }

    /// Whether the four squares `piece` are all open to the mover's piece.
    pub open spec fn fits(self, piece: Seq<(int, int)>) -> bool {
        &&& self.open_to_mover(piece[0])
        &&& self.open_to_mover(piece[1])
        &&& self.open_to_mover(piece[2])
        &&& self.open_to_mover(piece[3])
    }

    /// Whether one of the four squares `piece` is not covered by the mover's
    /// piece now, so that putting the piece there moves it.
    pub open spec fn displaces(self, piece: Seq<(int, int)>) -> bool {
        ||| self.value_at(piece[0]) != Some(self.to_move.piece())
        ||| self.value_at(piece[1]) != Some(self.to_move.piece())
        ||| self.value_at(piece[2]) != Some(self.to_move.piece())
        ||| self.value_at(piece[3]) != Some(self.to_move.piece())
    }

    /// Whether the mover may put its piece on the four squares `piece`.
    pub open spec fn can_place(self, piece: Seq<(int, int)>) -> bool {
        self.fits(piece) && self.displaces(piece)
    }

    /// The move that puts the mover's piece on `piece` and leaves the two
    /// neutral pieces where they are: on the first two neutral squares in
    /// row-major order.
    pub open spec fn resting_move(self, piece: Seq<(int, int)>) -> Move {
        Move { piece, neutrals: seq![self.neutral_positions()[0], self.neutral_positions()[1]] }
    }

    /// The squares that are empty once `m` has been played, in row-major
    /// order.
    pub open spec fn free_squares_after(self, m: Move) -> Seq<(int, int)> {
        squares_holding(self.cells_after(m), Cell::Empty)
    }

    /// The moves that place the piece as `base` does and take neutral piece
    /// `slot` to a square that is empty once `base` has been played, one move
    /// for each such square in row-major order.
    pub open spec fn relocations(self, base: Move, slot: int) -> Seq<Move> {
        self.free_squares_after(base).map_values(relocate(base, slot))
    }

    /// The moves that put the mover's piece on `piece`: first the one that
    /// leaves the neutral pieces alone, then those that move the first neutral
    /// piece, then those that move the second.
    pub open spec fn moves_with_piece(self, piece: Seq<(int, int)>) -> Seq<Move> {
        let base = self.resting_move(piece);
        seq![base] + self.relocations(base, 0) + self.relocations(base, 1)
    }

    /// The moves of the `k`-th placement tried. The placements are tried
    /// anchor by anchor in row-major order, and for each anchor in the order
    /// of the eight orientations; a placement that the mover may not make
    /// yields no move.
    pub open spec fn placement_moves(self, k: int) -> Seq<Move> {
        let piece = footprint(square_at(k / 8), k % 8);
        if self.can_place(piece) {
            self.moves_with_piece(piece)
        } else {
            Seq::empty()
        }
    }

    /// The moves of each of the 128 placements, in the order in which they
    /// are tried.
    pub open spec fn moves_by_placement(self) -> Seq<Seq<Move>> {
        Seq::new(128, |k: int| self.placement_moves(k))
    }

    /// The legal moves of the side to move, in the order of enumeration.
    pub open spec fn legal_moves(self) -> Seq<Move> {
        self.moves_by_placement().flatten()
    }
}

/// Appends to `moves` the moves that differ from `base` in that neutral piece
/// `slot` stands on one of `targets`, in the order of `targets`.
fn push_relocations(moves: &mut Vec<BoardMove>, base: &BoardMove, slot: usize, targets: &Vec<[i32; 2]>)
    requires
        slot < 2,
    ensures
        moves_of(final(moves)@) == moves_of(old(moves)@) + squares_of(targets@).map_values(
            relocate(base@, slot as int),
        ),
{
    let n: usize = targets.len();
    let ghost before = moves_of(moves@);
    let ghost shift = relocate(base@, slot as int);
    assert(moves_of(moves@) =~= before + squares_of(targets@).take(0).map_values(shift));
    for t in 0..n
        invariant
            n == targets@.len(),
            slot < 2,
            shift == relocate(base@, slot as int),
            moves_of(moves@) == before + squares_of(targets@).take(t as int).map_values(shift),
    {
        let target: [i32; 2] = targets[t];
        let neutral_pieces: [[i32; 2]; 2] = if slot == 0 {
            [target, base.neutralPieces[1]]
        } else {
            [base.neutralPieces[0], target]
        };
        let relocated = BoardMove { lPiece: base.lPiece, neutralPieces: neutral_pieces };
        let ghost old_moves = moves@;
        moves.push(relocated);
        proof {
            assert(relocated@.neutrals =~= base@.neutrals.update(slot as int, square_of(target)));
            assert(relocated@ == shift(square_of(target)));
            assert(moves_of(moves@) =~= moves_of(old_moves).push(relocated@));
            assert(squares_of(targets@).take(t + 1) =~= squares_of(targets@).take(t as int).push(
                square_of(target),
            ));
            assert(squares_of(targets@).take(t + 1).map_values(shift) =~= squares_of(targets@).take(
                t as int,
            ).map_values(shift).push(shift(square_of(target))));
        }
    }
    assert(squares_of(targets@).take(n as int) =~= squares_of(targets@));
}

impl BoardState {
    /// Whether the mover's piece may cover square `p`.
    pub fn is_open_to_mover(&self, p: [i32; 2]) -> (open: bool)
        ensures
            open == self@.open_to_mover(square_of(p)),
    {
        match self.get_value_at_pos(p[0], p[1]) {
            Some(c) => c != Cell::Neutral && c != self.current_player.other().cell(),
            None => false,
        }
    }

    /// Whether square `p` is on the board and covered by the mover's piece.
    pub fn is_held_by_mover(&self, p: [i32; 2]) -> (held: bool)
        ensures
            held == (self@.value_at(square_of(p)) == Some(self@.to_move.piece())),
    {
        match self.get_value_at_pos(p[0], p[1]) {
            Some(c) => c == self.current_player.cell(),
            None => false,
        }
    }

    /// Whether the mover may put its piece on the four squares `piece`: all
    /// four are open to it, and not all four are covered by it now.
    pub fn can_place(&self, piece: &[[i32; 2]; 4]) -> (ok: bool)
        ensures
            ok == self@.can_place(squares_of(piece@)),
    {
        let fits = self.is_open_to_mover(piece[0]) && self.is_open_to_mover(piece[1])
            && self.is_open_to_mover(piece[2]) && self.is_open_to_mover(piece[3]);
        let stays = self.is_held_by_mover(piece[0]) && self.is_held_by_mover(piece[1])
            && self.is_held_by_mover(piece[2]) && self.is_held_by_mover(piece[3]);
        fits && !stays
    }

    /// Whether the board holds at least the two neutral pieces that a move
    /// speaks of, as the enumeration of moves needs it.
    pub fn has_neutral_pair(&self) -> (found: bool)
        ensures
            found == self@.has_neutral_pair(),
    {
        let neutrals = self.get_neutral_piece_positions();
        assert(squares_of(neutrals@).len() == neutrals@.len());
        neutrals.len() >= 2
    }

    /// Every legal move of the side to move, in the order of enumeration:
    /// placements anchor by anchor in row-major order and orientation by
    /// orientation; for each placement first the move that leaves the neutral
    /// pieces alone, then the moves of the first neutral piece, then those of
    /// the second. The result is empty when the side to move cannot move.
    pub fn calculate_legal_moves(&self) -> (moves: Vec<BoardMove>)
        requires
            self@.has_neutral_pair(),
        ensures
            moves_of(moves@) == self@.legal_moves(),
    {
        let neutrals = self.get_neutral_piece_positions();
        assert(squares_of(neutrals@).len() == neutrals@.len());
        let resting: [[i32; 2]; 2] = [neutrals[0], neutrals[1]];
        assert(squares_of(resting@) =~= seq![
            self@.neutral_positions()[0],
            self@.neutral_positions()[1],
        ]) by {
            assert(squares_of(neutrals@)[0] == square_of(neutrals@[0]));
            assert(squares_of(neutrals@)[1] == square_of(neutrals@[1]));
        }
        let mut moves: Vec<BoardMove> = Vec::new();
        assert(moves_of(moves@) =~= self@.moves_by_placement().take(0).flatten());
        for k in 0..128usize
            invariant
                self@.has_neutral_pair(),
                squares_of(resting@) == seq![
                    self@.neutral_positions()[0],
                    self@.neutral_positions()[1],
                ],
                moves_of(moves@) == self@.moves_by_placement().take(k as int).flatten(),
        {
            let anchor = square(k / 8);
            let piece = place_piece(anchor, k % 8);
            let ghost tried = self@.moves_by_placement().take(k as int);
            proof {
                assert(squares_of(piece@) =~= footprint(square_at(k as int / 8), k as int % 8));
                assert(self@.moves_by_placement().take(k + 1) =~= tried.push(
                    self@.placement_moves(k as int),
                ));
                tried.lemma_flatten_push(self@.placement_moves(k as int));
            }
            if self.can_place(&piece) {
                let base = BoardMove { lPiece: piece, neutralPieces: resting };
                assert(base@ == self@.resting_move(squares_of(piece@)));
                let ghost old_moves = moves@;
                moves.push(base);
                assert(moves_of(moves@) =~= moves_of(old_moves) + seq![base@]);
                let cells = self.cells_after(&base);
                let free = find_squares(&cells, Cell::Empty);
                push_relocations(&mut moves, &base, 0, &free);
                push_relocations(&mut moves, &base, 1, &free);
                assert(moves_of(moves@) =~= moves_of(old_moves) + self@.moves_with_piece(
                    squares_of(piece@),
                ));
            } else {
                assert(moves_of(moves@) =~= moves_of(moves@) + Seq::<Move>::empty());
            }
        }
        assert(self@.moves_by_placement().take(128) =~= self@.moves_by_placement());
        moves
    }
}

} // verus!
