//! Deciding whether a position is one of the game.

use vstd::prelude::*;
use vstd::seq_lib::seq_to_set_is_finite;
use vstd::set_lib::lemma_subset_equality;
use crate::board::{lemma_squares_holding, BoardState};
use crate::cell::{Cell, Player};
use crate::geometry::{
    covers_placement, footprint, place_piece, square, square_at, square_index, squares_of,
};
use crate::legality::lemma_footprint_distinct;
use crate::moves::lists_square;

verus! {

/// Four distinct squares that all occur in a list of four distinct squares
/// are, as a set, that list.
proof fn lemma_four_of_four(held: Seq<(int, int)>, piece: Seq<(int, int)>)
    requires
        held.len() == 4,
        held.no_duplicates(),
        piece.len() == 4,
        piece.no_duplicates(),
        forall|j: int| 0 <= j < 4 ==> held.contains(#[trigger] piece[j]),
    ensures
        held.to_set() == piece.to_set(),
{
    held.unique_seq_to_set();
    piece.unique_seq_to_set();
    seq_to_set_is_finite(held);
    seq_to_set_is_finite(piece);
    assert(piece.to_set().subset_of(held.to_set())) by {
        assert forall|p: (int, int)| piece.to_set().contains(p) implies held.to_set().contains(p) by {
            let j = choose|j: int| 0 <= j < piece.len() && piece[j] == p;
            assert(held.contains(piece[j]));
        }
    }
    lemma_subset_equality(piece.to_set(), held.to_set());
}

impl BoardState {
    /// Whether the piece of `player` covers the four squares of a placement.
    pub fn piece_is_placed(&self, player: Player) -> (placed: bool)
        ensures
            placed == covers_placement(self@.positions_with(player.piece())),
    {
        let held = self.get_positions_with_value(player.cell());
        let ghost squares = squares_of(held@);
        proof {
            lemma_squares_holding(self@.cells, player.piece());
            assert(squares.len() == held@.len());
            squares.unique_seq_to_set();
        }
        if held.len() != 4 {
            proof {
                assert forall|anchor: (int, int), o: int| 0 <= o < 8 implies squares.to_set()
                    != (#[trigger] footprint(anchor, o)).to_set() by {
                    lemma_footprint_distinct(anchor, o);
                    footprint(anchor, o).unique_seq_to_set();
                }
            }
            return false;
        }
        for k in 0..128usize
            invariant
                squares == squares_of(held@),
                squares == self@.positions_with(player.piece()),
                squares.len() == 4,
                squares.no_duplicates(),
                forall|j: int|
                    0 <= j < k ==> squares.to_set() != (#[trigger] footprint(
                        square_at(j / 8),
                        j % 8,
                    )).to_set(),
        {
            let piece = place_piece(square(k / 8), k % 8);
            let ghost cells = footprint(square_at(k as int / 8), k as int % 8);
            proof {
                lemma_footprint_distinct(square_at(k as int / 8), k as int % 8);
                assert(squares_of(piece@) =~= cells);
                assert(forall|j: int| 0 <= j < 4 ==> cells.to_set().contains(#[trigger] cells[j]));
            }
            if lists_square(held.as_slice(), piece[0][0], piece[0][1]) && lists_square(
                held.as_slice(),
                piece[1][0],
                piece[1][1],
            ) && lists_square(held.as_slice(), piece[2][0], piece[2][1]) && lists_square(
                held.as_slice(),
                piece[3][0],
                piece[3][1],
            ) {
                proof {
                    assert(squares_of(piece@)[0] == cells[0] && squares_of(piece@)[1] == cells[1]
                        && squares_of(piece@)[2] == cells[2] && squares_of(piece@)[3] == cells[3]);
                    lemma_four_of_four(squares, cells);
                }
                return true;
            }
            proof {
                assert(squares_of(piece@)[0] == cells[0] && squares_of(piece@)[1] == cells[1]
                    && squares_of(piece@)[2] == cells[2] && squares_of(piece@)[3] == cells[3]);
                assert(!squares.contains(cells[0]) || !squares.contains(cells[1])
                    || !squares.contains(cells[2]) || !squares.contains(cells[3]));
            }
        }
        proof {
            assert forall|anchor: (int, int), o: int| 0 <= o < 8 implies squares.to_set() != (
            #[trigger] footprint(anchor, o)).to_set() by {
                lemma_footprint_distinct(anchor, o);
                if squares.to_set() == footprint(anchor, o).to_set() {
                    assert(footprint(anchor, o).to_set().contains(footprint(anchor, o)[0]));
                    assert(squares.contains(anchor));
                    let j = square_index(anchor) * 8 + o;
                    assert(square_at(j / 8) == anchor && j % 8 == o);
                    assert(0 <= j < 128);
                }
            }
        }
        false
    }

    /// Whether this is a position of the game: each side's piece covers a
    /// placement, exactly two squares hold a neutral piece, and no score is
    /// below zero.
    pub fn is_valid(&self) -> (valid: bool)
        ensures
            valid == self@.valid(),
    {
        let neutrals = self.get_neutral_piece_positions();
        assert(squares_of(neutrals@).len() == neutrals@.len());
        self.piece_is_placed(Player::Player1) && self.piece_is_placed(Player::Player2)
            && neutrals.len() == 2 && self.scores.0 >= 0 && self.scores.1 >= 0
    }
}

} // verus!
