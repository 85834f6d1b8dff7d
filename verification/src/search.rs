//! Depth-bounded adversarial search for the best move.

use vstd::prelude::*;
use crate::board::{Board, BoardState};
use crate::cell::Player;
use crate::legality::lemma_legal_move_keeps_neutral_pair;
use crate::moves::{moves_of, scores_fit, BoardMove, Move};

verus! {

/// Whether `values[i]` is the greatest of `values` and the last entry that is
/// as great.
pub open spec fn is_last_maximum(values: Seq<int>, i: int) -> bool {
    &&& 0 <= i < values.len()
    &&& forall|j: int| 0 <= j < values.len() ==> values[j] <= values[i]
    &&& forall|j: int| i < j < values.len() ==> values[j] < values[i]
}

/// The index of the last greatest entry of `values`.
pub open spec fn last_maximum(values: Seq<int>) -> int {
    choose|i: int| is_last_maximum(values, i)
}

/// The move that an optional executable move stands for.
pub open spec fn move_of(m: Option<BoardMove>) -> Option<Move> {
    match m {
        Some(m) => Some(m@),
        None => None,
    }
}

impl Board {
    /// How `player` stands: its score less the other side's score.
    pub open spec fn standing(self, player: Player) -> int {
        self.score_of(player) - self.score_of(player.opponent())
    }

    /// The value of this position for `perspective` when play is looked
    /// ahead `depth` plies. With no plies left, or no legal move, it is how
    /// `perspective` stands. Otherwise it is the greatest value among the
    /// positions that the legal moves lead to when `perspective` is to move,
    /// and the least when the other side is.
    pub open spec fn search_value(self, depth: nat, perspective: Player) -> int
        decreases depth, 0int,
    {
        if depth == 0 || self.legal_moves().len() == 0 {
            self.standing(perspective)
        } else if self.to_move == perspective {
            self.reply_values((depth - 1) as nat, perspective).max()
        } else {
            self.reply_values((depth - 1) as nat, perspective).min()
        }
    }

    /// For each legal move, in the order of enumeration, the value for
    /// `perspective` of the position that the move leads to, looked ahead
    /// `depth` plies from there.
    pub open spec fn reply_values(self, depth: nat, perspective: Player) -> Seq<int>
        decreases depth, 1int,
    {
        Seq::new(
            self.legal_moves().len(),
            |i: int| self.apply(self.legal_moves()[i]).search_value(depth, perspective),
        )
    }

    /// The move to play: the legal move of the greatest value, and the last
    /// of them in the order of enumeration where several are as good; `None`
    /// when there is no legal move.
    pub open spec fn optimal_move(self, depth: nat) -> Option<Move> {
        if self.legal_moves().len() == 0 {
            None
        } else {
            Some(self.legal_moves()[last_maximum(self.reply_values(depth, self.to_move))])
        }
    }

    /// Whether the scores leave room for `plies` more points each.
    pub open spec fn has_room(self, plies: nat) -> bool {
        self.scores.0 + plies <= i32::MAX && self.scores.1 + plies <= i32::MAX
    }

    /// Whether this position can be searched `plies` plies deep: it holds its
    /// two neutral pieces, its scores lie within `i32`, and, where a ply is
    /// to be played and there is a move to play, the scores leave room for
    /// one more point per ply. A position without a legal move needs no
    /// room.
    pub open spec fn searchable(self, plies: nat) -> bool {
        &&& self.has_neutral_pair()
        &&& scores_fit(self.scores)
        &&& plies > 0 && self.legal_moves().len() > 0 ==> self.has_room(plies)
    }
}

/// At most one entry is the last greatest.
pub proof fn lemma_last_maximum_unique(values: Seq<int>, i: int, j: int)
    requires
        is_last_maximum(values, i),
        is_last_maximum(values, j),
    ensures
        i == j,
        last_maximum(values) == i,
{
    let k = last_maximum(values);
    assert(is_last_maximum(values, k));
    if i < j {
        assert(values[j] < values[i]);
    }
    if i < k {
        assert(values[k] < values[i]);
    }
}

/// A sequence that is not empty has a last greatest entry, and `last_maximum`
/// is its index.
pub proof fn lemma_last_maximum_exists(values: Seq<int>)
    requires
        values.len() > 0,
    ensures
        is_last_maximum(values, last_maximum(values)),
    decreases values.len(),
{
    if values.len() == 1 {
        assert(is_last_maximum(values, 0));
    } else {
        let front = values.drop_last();
        lemma_last_maximum_exists(front);
        let i = last_maximum(front);
        assert(forall|j: int| 0 <= j < front.len() ==> front[j] == values[j]);
        if values.last() >= values[i] {
            assert(is_last_maximum(values, values.len() - 1));
        } else {
            assert(is_last_maximum(values, i));
        }
    }
}

/// The move to play is the last of the best: there is none exactly when
/// there is no legal move; else it is the legal move whose value no move
/// exceeds and every later move falls short of.
pub proof fn lemma_optimal_move_is_last_best(b: Board, depth: nat)
    ensures
        b.optimal_move(depth) is None <==> b.legal_moves().len() == 0,
        b.legal_moves().len() > 0 ==> is_last_maximum(
            b.reply_values(depth, b.to_move),
            last_maximum(b.reply_values(depth, b.to_move)),
        ) && b.optimal_move(depth) == Some(
            b.legal_moves()[last_maximum(b.reply_values(depth, b.to_move))],
        ),
{
    if b.legal_moves().len() > 0 {
        lemma_last_maximum_exists(b.reply_values(depth, b.to_move));
    }
}

/// A move is determined by what it stands for: two moves that name the same
/// squares in the same order are the same value.
pub proof fn lemma_move_determined(first: BoardMove, second: BoardMove)
    requires
        first@ == second@,
    ensures
        first == second,
{
    assert forall|k: int| 0 <= k < 4 implies first.lPiece[k] == second.lPiece[k] by {
        assert(first@.piece[k] == second@.piece[k]);
        assert(first.lPiece[k][0] == second.lPiece[k][0]);
        assert(first.lPiece[k][1] == second.lPiece[k][1]);
        assert(first.lPiece[k] =~= second.lPiece[k]);
    }
    assert forall|k: int| 0 <= k < 2 implies first.neutralPieces[k] == second.neutralPieces[k] by {
        assert(first@.neutrals[k] == second@.neutrals[k]);
        assert(first.neutralPieces[k][0] == second.neutralPieces[k][0]);
        assert(first.neutralPieces[k][1] == second.neutralPieces[k][1]);
        assert(first.neutralPieces[k] =~= second.neutralPieces[k]);
    }
    assert(first.lPiece =~= second.lPiece);
    assert(first.neutralPieces =~= second.neutralPieces);
}

/// The choice depends on nothing but the position and the depth: any two
/// answers that both stand for the move to play are the same, entry by
/// entry, or both none.
pub proof fn lemma_choice_determined(
    b: Board,
    depth: nat,
    first: Option<BoardMove>,
    second: Option<BoardMove>,
)
    requires
        move_of(first) == b.optimal_move(depth),
        move_of(second) == b.optimal_move(depth),
    ensures
        first == second,
{
    if first is Some {
        lemma_move_determined(first->0, second->0);
    }
}

/// A legal move made in a position that can be searched one ply deeper leads
/// to a position that can be searched, with scores within range.
pub proof fn lemma_searchable_step(b: Board, i: int, plies: nat)
    requires
        b.searchable(plies + 1),
        0 <= i < b.legal_moves().len(),
    ensures
        b.apply(b.legal_moves()[i]).searchable(plies),
        scores_fit(b.apply(b.legal_moves()[i]).scores),
{
    lemma_legal_move_keeps_neutral_pair(b, i);
}

/// The greatest of `values` is the entry that no entry exceeds.
proof fn lemma_is_max(values: Seq<int>, i: int)
    requires
        0 <= i < values.len(),
        forall|j: int| 0 <= j < values.len() ==> values[j] <= values[i],
    ensures
        values.max() == values[i],
{
    values.max_ensures();
    let k = choose|k: int| 0 <= k < values.len() && values[k] == values.max();
    assert(values[k] <= values[i]);
}

/// The least of `values` is the entry that exceeds no entry.
proof fn lemma_is_min(values: Seq<int>, i: int)
    requires
        0 <= i < values.len(),
        forall|j: int| 0 <= j < values.len() ==> values[i] <= values[j],
    ensures
        values.min() == values[i],
{
    values.min_ensures();
    let k = choose|k: int| 0 <= k < values.len() && values[k] == values.min();
    assert(values[i] <= values[k]);
}

impl BoardState {
    /// How `player` stands: its score less the other side's score.
    pub fn standing(&self, player: Player) -> (value: i64)
        ensures
            value == self@.standing(player),
    {
        let first: i64 = self.scores.0 as i64;
        let second: i64 = self.scores.1 as i64;
        match player {
            Player::Player1 => first - second,
            Player::Player2 => second - first,
        }
    }

    /// Whether this position can be searched `plies` plies deep. A search
    /// for the best move at depth `d` looks `d + 1` plies ahead.
    pub fn is_searchable(&self, plies: u64) -> (ready: bool)
        ensures
            ready == self@.searchable(plies as nat),
    {
        if !self.has_neutral_pair() {
            return false;
        }
        let first_room: i64 = i32::MAX as i64 - self.scores.0 as i64;
        let second_room: i64 = i32::MAX as i64 - self.scores.1 as i64;
        if plies <= first_room as u64 && plies <= second_room as u64 {
            return true;
        }
        let moves = self.calculate_legal_moves();
        assert(moves_of(moves@).len() == moves@.len());
        moves.len() == 0
    }

    /// The best move as `calculate_optimal_move` finds it, for any position:
    /// `None` where the position cannot be searched `depth + 1` plies deep,
    /// else the answer of the search.
    pub fn checked_optimal_move(&self, depth: u32) -> (best: Option<Option<BoardMove>>)
        ensures
            best is Some <==> self@.searchable(depth as nat + 1),
            best matches Some(found) ==> move_of(found) == self@.optimal_move(depth as nat),
    {
        if self.is_searchable(depth as u64 + 1) {
            Some(self.calculate_optimal_move(depth))
        } else {
            None
        }
    }

    /// The value of this position for `player`, looked ahead `depth` plies.
    pub fn evaluate(&self, depth: u32, player: Player) -> (value: i64)
        requires
            self@.searchable(depth as nat),
        ensures
            value == self@.search_value(depth as nat, player),
        decreases depth, 0int,
    {
        let moves = self.calculate_legal_moves();
        if depth == 0 || moves.len() == 0 {
            assert(moves_of(moves@).len() == moves@.len());
            self.standing(player)
        } else {
            let n: usize = moves.len();
            let maximizing: bool = self.current_player == player;
            let ghost values = self@.reply_values((depth - 1) as nat, player);
            let ghost mut at: int = 0;
            proof {
                assert(moves_of(moves@).len() == moves@.len());
                lemma_searchable_step(self@, 0, (depth - 1) as nat);
                assert(moves_of(moves@)[0] == moves@[0]@);
            }
            let mut best: i64 = self.evaluate_move(&moves[0], depth - 1, player);
            for i in 1..n
                invariant
                    n == moves@.len(),
                    n == values.len(),
                    depth > 0,
                    self@.searchable(depth as nat),
                    moves_of(moves@) == self@.legal_moves(),
                    values == self@.reply_values((depth - 1) as nat, player),
                    0 <= at < i,
                    best == values[at],
                    maximizing ==> forall|j: int| 0 <= j < i ==> values[j] <= best,
                    !maximizing ==> forall|j: int| 0 <= j < i ==> best <= values[j],
            {
                proof {
                    lemma_searchable_step(self@, i as int, (depth - 1) as nat);
                    assert(moves_of(moves@)[i as int] == moves@[i as int]@);
                }
                let value: i64 = self.evaluate_move(&moves[i], depth - 1, player);
                if (maximizing && value > best) || (!maximizing && value < best) {
                    best = value;
                    proof {
                        at = i as int;
                    }
                }
            }
            proof {
                if maximizing {
                    lemma_is_max(values, at);
                } else {
                    lemma_is_min(values, at);
                }
            }
            best
        }
    }

    /// The value for `player` of the position that `board_move` leads to,
    /// looked ahead `depth` plies from there.
    pub fn evaluate_move(&self, board_move: &BoardMove, depth: u32, player: Player) -> (value: i64)
        requires
            scores_fit(self@.apply(board_move@).scores),
            self@.apply(board_move@).searchable(depth as nat),
        ensures
            value == self@.apply(board_move@).search_value(depth as nat, player),
        decreases depth, 1int,
    {
        let next = self.apply_move(board_move);
        next.evaluate(depth, player)
    }

    /// The best move for the side to move when each move is judged by a
    /// search `depth` plies beyond it: the move of the greatest value, and
    /// the last such move in the order of enumeration where several are as
    /// good. `None` when the side to move has no legal move.
    pub fn calculate_optimal_move(&self, depth: u32) -> (best: Option<BoardMove>)
        requires
            self@.searchable(depth as nat + 1),
        ensures
            move_of(best) == self@.optimal_move(depth as nat),
            best is None <==> self@.legal_moves().len() == 0,
            best matches Some(m) ==> exists|i: int|
                is_last_maximum(self@.reply_values(depth as nat, self@.to_move), i) && m@
                    == #[trigger] self@.legal_moves()[i],
    {
        let moves = self.calculate_legal_moves();
        let n: usize = moves.len();
        assert(moves_of(moves@).len() == moves@.len());
        if n == 0 {
            return None;
        }
        let player = self.current_player;
        let ghost values = self@.reply_values(depth as nat, self@.to_move);
        proof {
            lemma_searchable_step(self@, 0, depth as nat);
            assert(moves_of(moves@)[0] == moves@[0]@);
        }
        let mut chosen: usize = 0;
        let mut best: i64 = self.evaluate_move(&moves[0], depth, player);
        for i in 1..n
            invariant
                n == moves@.len(),
                n == values.len(),
                player == self@.to_move,
                self@.searchable(depth as nat + 1),
                moves_of(moves@) == self@.legal_moves(),
                values == self@.reply_values(depth as nat, self@.to_move),
                0 <= chosen < i,
                best == values[chosen as int],
                forall|j: int| 0 <= j < i ==> values[j] <= best,
                forall|j: int| chosen < j < i ==> values[j] < best,
        {
            proof {
                lemma_searchable_step(self@, i as int, depth as nat);
                assert(moves_of(moves@)[i as int] == moves@[i as int]@);
            }
            let value: i64 = self.evaluate_move(&moves[i], depth, player);
            if value >= best {
                best = value;
                chosen = i;
            }
        }
        proof {
            assert(is_last_maximum(values, chosen as int));
            lemma_last_maximum_unique(values, chosen as int, chosen as int);
            assert(moves_of(moves@)[chosen as int] == moves@[chosen as int]@);
        }
        Some(moves[chosen])
    }
}

} // verus!
