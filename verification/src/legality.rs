//! What holds of every legal move.

use vstd::prelude::*;
use crate::board::{lemma_squares_holding, squares_holding, Board};
use crate::cell::Cell;
use crate::geometry::{
    covers_placement, footprint, in_bounds, is_placement, offsets, square_at, square_index,
};
use crate::movegen::relocate;
use crate::moves::Move;

verus! {

/// Each element of a flattened sequence stands in one of the parts.
proof fn lemma_flatten_member<A>(parts: Seq<Seq<A>>, i: int) -> (at: (int, int))
    requires
        0 <= i < parts.flatten().len(),
    ensures
        0 <= at.0 < parts.len(),
        0 <= at.1 < parts[at.0].len(),
        parts.flatten()[i] == parts[at.0][at.1],
    decreases parts.len(),
{
    if i < parts.first().len() {
        (0, i)
    } else {
        let rest = parts.drop_first();
        let at = lemma_flatten_member(rest, i - parts.first().len());
        (at.0 + 1, at.1)
    }
}

/// A flattened sequence is empty exactly when every part is.
proof fn lemma_flatten_empty<A>(parts: Seq<Seq<A>>)
    ensures
        parts.flatten().len() == 0 <==> forall|j: int|
            0 <= j < parts.len() ==> (#[trigger] parts[j]).len() == 0,
    decreases parts.len(),
{
    if parts.len() > 0 {
        let rest = parts.drop_first();
        lemma_flatten_empty(rest);
        if parts.flatten().len() == 0 {
            assert forall|j: int| 0 <= j < parts.len() implies (#[trigger] parts[j]).len() == 0 by {
                if j > 0 {
                    assert(rest[j - 1] == parts[j]);
                }
            }
        } else if parts.first().len() == 0 {
            let j = choose|j: int| 0 <= j < rest.len() && (#[trigger] rest[j]).len() != 0;
            assert(parts[j + 1] == rest[j]);
        }
    }
}

/// The four cells of a placement are distinct.
pub proof fn lemma_footprint_distinct(anchor: (int, int), o: int)
    requires
        0 <= o < 8,
    ensures
        footprint(anchor, o).len() == 4,
        footprint(anchor, o).no_duplicates(),
        footprint(anchor, o)[0] == anchor,
{
    let f = footprint(anchor, o);
    assert(offsets(o).len() == 4);
    assert(f[0] != f[1] && f[0] != f[2] && f[0] != f[3] && f[1] != f[2] && f[1] != f[3] && f[2]
        != f[3]);
}

/// A placement that fits is anchored on a square that is empty or covered by
/// the mover's piece: only such squares need to be tried as anchors.
pub proof fn lemma_fitting_anchor(b: Board, anchor: (int, int), o: int)
    requires
        0 <= o < 8,
        b.fits(footprint(anchor, o)),
    ensures
        b.value_at(anchor) == Some(Cell::Empty) || b.value_at(anchor) == Some(b.to_move.piece()),
{
    lemma_footprint_distinct(anchor, o);
    assert(b.open_to_mover(footprint(anchor, o)[0]));
}

/// Where a legal move comes from: the placement `k` that produced it. The
/// mover may make that placement, and the move is one of the moves with the
/// piece on it.
pub proof fn lemma_legal_move_origin(b: Board, i: int) -> (k: int)
    requires
        0 <= i < b.legal_moves().len(),
    ensures
        0 <= k < 128,
        b.can_place(footprint(square_at(k / 8), k % 8)),
        b.moves_with_piece(footprint(square_at(k / 8), k % 8)).contains(b.legal_moves()[i]),
{
    let at = lemma_flatten_member(b.moves_by_placement(), i);
    let k = at.0;
    assert(b.moves_by_placement()[k] == b.placement_moves(k));
    assert(b.placement_moves(k)[at.1] == b.legal_moves()[i]);
    k
}

/// The moves with the piece on `piece` put the piece there, and their neutral
/// squares are those of the resting move, but for at most one that has gone
/// to a square that is empty once the resting move has been played. The
/// square returned is that square, where one has.
pub proof fn lemma_move_with_piece(b: Board, piece: Seq<(int, int)>, m: Move) -> (target: (int, int))
    requires
        b.moves_with_piece(piece).contains(m),
    ensures
        m.piece == piece,
        m.neutrals == b.resting_move(piece).neutrals || (b.free_squares_after(
            b.resting_move(piece),
        ).contains(target) && (m.neutrals == b.resting_move(piece).neutrals.update(0, target)
            || m.neutrals == b.resting_move(piece).neutrals.update(1, target))),
{
    let base = b.resting_move(piece);
    let free = b.free_squares_after(base);
    let all = b.moves_with_piece(piece);
    let l = choose|l: int| 0 <= l < all.len() && all[l] == m;
    if l == 0 {
        (0, 0)
    } else if l < 1 + free.len() {
        assert(all[l] == b.relocations(base, 0)[l - 1]);
        assert(free[l - 1] == free[l - 1]);
        free[l - 1]
    } else {
        assert(all[l] == b.relocations(base, 1)[l - 1 - free.len()]);
        assert(free[l - 1 - free.len()] == free[l - 1 - free.len()]);
        free[l - 1 - free.len()]
    }
}

/// Every legal move puts the piece on four distinct squares of the board
/// that form one of the eight orientations of the L shape.
pub proof fn lemma_legal_move_footprint(b: Board, i: int)
    requires
        0 <= i < b.legal_moves().len(),
    ensures
        b.legal_moves()[i].piece.len() == 4,
        b.legal_moves()[i].piece.no_duplicates(),
        forall|j: int| 0 <= j < 4 ==> in_bounds(#[trigger] b.legal_moves()[i].piece[j]),
        is_placement(b.legal_moves()[i].piece),
{
    let k = lemma_legal_move_origin(b, i);
    let piece = footprint(square_at(k / 8), k % 8);
    let _ = lemma_move_with_piece(b, piece, b.legal_moves()[i]);
    lemma_footprint_distinct(square_at(k / 8), k % 8);
}

/// No legal move leaves the mover's piece where it is: one of the squares
/// that the piece goes to is not covered by the mover's piece now, so the
/// squares it goes to are not the squares it covers.
pub proof fn lemma_legal_move_displaces(b: Board, i: int)
    requires
        0 <= i < b.legal_moves().len(),
    ensures
        b.displaces(b.legal_moves()[i].piece),
        b.legal_moves()[i].piece.to_set() != b.positions_with(b.to_move.piece()).to_set(),
{
    let k = lemma_legal_move_origin(b, i);
    let piece = footprint(square_at(k / 8), k % 8);
    let _ = lemma_move_with_piece(b, piece, b.legal_moves()[i]);
    lemma_squares_holding(b.cells, b.to_move.piece());
    let j = choose|j: int| 0 <= j < 4 && b.value_at(piece[j]) != Some(b.to_move.piece());
    assert(piece.to_set().contains(piece[j]));
    assert(!b.positions_with(b.to_move.piece()).contains(piece[j]));
}

/// On a board with its two neutral pieces, every legal move names two
/// distinct squares of the board for them, neither of which the mover's piece
/// goes to.
pub proof fn lemma_legal_move_neutrals(b: Board, i: int)
    requires
        b.has_neutral_pair(),
        0 <= i < b.legal_moves().len(),
    ensures
        b.legal_moves()[i].neutrals.len() == 2,
        b.legal_moves()[i].neutrals[0] != b.legal_moves()[i].neutrals[1],
        in_bounds(b.legal_moves()[i].neutrals[0]),
        in_bounds(b.legal_moves()[i].neutrals[1]),
        !b.legal_moves()[i].piece.contains(b.legal_moves()[i].neutrals[0]),
        !b.legal_moves()[i].piece.contains(b.legal_moves()[i].neutrals[1]),
{
    let m = b.legal_moves()[i];
    let k = lemma_legal_move_origin(b, i);
    let piece = footprint(square_at(k / 8), k % 8);
    let target = lemma_move_with_piece(b, piece, m);
    let base = b.resting_move(piece);
    let resting = b.neutral_positions();
    lemma_squares_holding(b.cells, Cell::Neutral);
    assert(resting.contains(resting[0]) && resting.contains(resting[1]));
    assert(square_index(resting[0]) < square_index(resting[1]));
    assert(base.neutrals[0] == resting[0] && base.neutrals[1] == resting[1]);
    assert forall|j: int| 0 <= j < 4 implies piece[j] != resting[0] && piece[j] != resting[1] by {
        assert(b.open_to_mover(piece[j]));
    }
    if m.neutrals != base.neutrals {
        let after = b.cells_after(base);
        lemma_squares_holding(after, Cell::Empty);
        assert(after[square_index(target)] == b.cell_after(base, square_index(target)));
        assert(square_at(square_index(target)) == target);
        assert(base.neutrals.contains(resting[0]) && base.neutrals.contains(resting[1]));
        assert forall|j: int| 0 <= j < 4 implies piece[j] != target by {
            if piece[j] == target {
                assert(base.piece.contains(target));
            }
        }
    }
}

/// A legal move on a board with its two neutral pieces leaves a board with
/// exactly two neutral pieces: they stand on the two squares that the move
/// names.
pub proof fn lemma_legal_move_keeps_neutral_pair(b: Board, i: int)
    requires
        b.has_neutral_pair(),
        0 <= i < b.legal_moves().len(),
    ensures
        b.apply(b.legal_moves()[i]).neutral_positions().len() == 2,
        b.apply(b.legal_moves()[i]).neutral_positions().to_set() == b.legal_moves()[i].neutrals.to_set(),
        b.apply(b.legal_moves()[i]).has_neutral_pair(),
{
    let m = b.legal_moves()[i];
    lemma_legal_move_neutrals(b, i);
    let after = b.apply(m).cells;
    let found = squares_holding(after, Cell::Neutral);
    lemma_squares_holding(after, Cell::Neutral);
    assert forall|p: (int, int)| #[trigger] found.contains(p) <==> m.neutrals.contains(p) by {
        if in_bounds(p) {
            assert(after[square_index(p)] == b.cell_after(m, square_index(p)));
            assert(square_at(square_index(p)) == p);
        }
        if m.neutrals.contains(p) {
            let j = choose|j: int| 0 <= j < m.neutrals.len() && m.neutrals[j] == p;
            assert(in_bounds(m.neutrals[j]));
        }
    }
    assert(found.to_set() =~= m.neutrals.to_set());
    assert(m.neutrals.contains(m.neutrals[0]) && m.neutrals.contains(m.neutrals[1]));
    assert(found.contains(m.neutrals[0]) && found.contains(m.neutrals[1]));
    let i0 = choose|j: int| 0 <= j < found.len() && found[j] == m.neutrals[0];
    let i1 = choose|j: int| 0 <= j < found.len() && found[j] == m.neutrals[1];
    assert(i0 != i1);
    if found.len() > 2 {
        assert(found.contains(found[0]) && found.contains(found[1]) && found.contains(found[2]));
        assert(m.neutrals.contains(found[0]) && m.neutrals.contains(found[1]) && m.neutrals.contains(
            found[2],
        ));
    }
}

/// On a board with its two neutral pieces, no legal move puts a piece on a
/// square that the opponent's piece covers.
pub proof fn lemma_legal_move_spares_opponent(b: Board, i: int)
    requires
        b.has_neutral_pair(),
        0 <= i < b.legal_moves().len(),
    ensures
        forall|j: int|
            0 <= j < 4 ==> b.value_at(#[trigger] b.legal_moves()[i].piece[j]) != Some(
                b.to_move.opponent().piece(),
            ),
        forall|j: int|
            0 <= j < 2 ==> b.value_at(#[trigger] b.legal_moves()[i].neutrals[j]) != Some(
                b.to_move.opponent().piece(),
            ),
{
    let m = b.legal_moves()[i];
    let k = lemma_legal_move_origin(b, i);
    let piece = footprint(square_at(k / 8), k % 8);
    let target = lemma_move_with_piece(b, piece, m);
    let base = b.resting_move(piece);
    let resting = b.neutral_positions();
    lemma_squares_holding(b.cells, Cell::Neutral);
    assert(resting.contains(resting[0]) && resting.contains(resting[1]));
    assert forall|j: int| 0 <= j < 4 implies b.value_at(#[trigger] m.piece[j]) != Some(
        b.to_move.opponent().piece(),
    ) by {
        assert(b.open_to_mover(piece[j]));
    }
    if m.neutrals != base.neutrals {
        let after = b.cells_after(base);
        lemma_squares_holding(after, Cell::Empty);
        assert(after[square_index(target)] == b.cell_after(base, square_index(target)));
        assert(square_at(square_index(target)) == target);
        if b.value_at(target) == Some(b.to_move.opponent().piece()) {
            if base.neutrals.contains(target) {
                let j = choose|j: int| 0 <= j < base.neutrals.len() && base.neutrals[j] == target;
                assert(j == 0 || j == 1);
            }
            if base.piece.contains(target) {
                let j = choose|j: int| 0 <= j < base.piece.len() && base.piece[j] == target;
                assert(b.open_to_mover(piece[j]));
            }
        }
    }
}

/// A legal move leads from a position of the game to a position of the
/// game: the mover's piece covers the placement that the move names, the
/// opponent's piece stays where it is, two neutral pieces stand on the
/// board, and no score is below zero.
pub proof fn lemma_legal_move_keeps_valid(b: Board, i: int)
    requires
        b.valid(),
        0 <= i < b.legal_moves().len(),
    ensures
        b.apply(b.legal_moves()[i]).valid(),
        b.apply(b.legal_moves()[i]).positions_with(b.to_move.piece()).to_set()
            == b.legal_moves()[i].piece.to_set(),
        b.apply(b.legal_moves()[i]).positions_with(b.to_move.opponent().piece()).to_set()
            == b.positions_with(b.to_move.opponent().piece()).to_set(),
{
    let m = b.legal_moves()[i];
    let after = b.apply(m);
    let mover = b.to_move.piece();
    let other = b.to_move.opponent().piece();
    let k = lemma_legal_move_origin(b, i);
    let piece = footprint(square_at(k / 8), k % 8);
    let _ = lemma_move_with_piece(b, piece, m);
    lemma_footprint_distinct(square_at(k / 8), k % 8);
    lemma_legal_move_footprint(b, i);
    lemma_legal_move_neutrals(b, i);
    lemma_legal_move_spares_opponent(b, i);
    lemma_legal_move_keeps_neutral_pair(b, i);
    lemma_squares_holding(after.cells, mover);
    lemma_squares_holding(after.cells, other);
    lemma_squares_holding(b.cells, other);
    assert forall|p: (int, int)| in_bounds(p) implies (after.cells[square_index(p)] == mover
        <==> m.piece.contains(p)) && (after.cells[square_index(p)] == other <==> b.cells[square_index(
        p,
    )] == other) by {
        assert(after.cells[square_index(p)] == b.cell_after(m, square_index(p)));
        assert(square_at(square_index(p)) == p);
        if m.neutrals.contains(p) {
            let j = choose|j: int| 0 <= j < m.neutrals.len() && m.neutrals[j] == p;
            assert(j == 0 || j == 1);
            assert(b.value_at(m.neutrals[j]) != Some(other));
        }
        if m.piece.contains(p) {
            let j = choose|j: int| 0 <= j < m.piece.len() && m.piece[j] == p;
            assert(b.value_at(m.piece[j]) != Some(other));
        }
    }
    assert forall|p: (int, int)| after.positions_with(mover).contains(p) <==> m.piece.contains(
        p,
    ) by {
        if m.piece.contains(p) {
            let j = choose|j: int| 0 <= j < m.piece.len() && m.piece[j] == p;
            assert(in_bounds(m.piece[j]));
        }
    }
    assert(after.positions_with(mover).to_set() =~= m.piece.to_set());
    assert(after.positions_with(other).to_set() =~= b.positions_with(other).to_set());
    assert(covers_placement(after.positions_with(mover)));
    assert(covers_placement(after.positions_with(other)));
}

/// The side to move has no legal move exactly when there is no placement
/// that it may make.
pub proof fn lemma_no_moves_iff_no_placement(b: Board)
    ensures
        b.legal_moves().len() == 0 <==> forall|anchor: (int, int), o: int|
            in_bounds(anchor) && 0 <= o < 8 ==> !b.can_place(#[trigger] footprint(anchor, o)),
{
    let parts = b.moves_by_placement();
    lemma_flatten_empty(parts);
    if b.legal_moves().len() == 0 {
        assert forall|anchor: (int, int), o: int| in_bounds(anchor) && 0 <= o < 8 implies !b.can_place(
            #[trigger] footprint(anchor, o),
        ) by {
            let k = square_index(anchor) * 8 + o;
            assert(square_at(k / 8) == anchor && k % 8 == o);
            assert(parts[k].len() == 0);
        }
    } else {
        let k = choose|k: int| 0 <= k < parts.len() && (#[trigger] parts[k]).len() != 0;
        assert(in_bounds(square_at(k / 8)));
        assert(b.can_place(footprint(square_at(k / 8), k % 8)));
    }
}

/// A side that can fit its piece nowhere on the board has no legal move.
pub proof fn lemma_blocked_has_no_moves(b: Board)
    requires
        forall|anchor: (int, int), o: int|
            in_bounds(anchor) && 0 <= o < 8 ==> !b.fits(#[trigger] footprint(anchor, o)),
    ensures
        b.legal_moves().len() == 0,
{
    lemma_no_moves_iff_no_placement(b);
}

} // verus!
