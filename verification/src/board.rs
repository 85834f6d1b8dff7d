//! The board: its mathematical model, the executable state, and the read
//! accessors.

use vstd::prelude::*;
use crate::cell::{Cell, Player};
use crate::geometry::{
    all_squares, covers_placement, footprint, in_bounds, square, square_at, square_index,
    square_of, squares_of,
};

verus! {

/// Mathematical model of a board: sixteen cells in row-major order, the side
/// to move, and the two scores (first side, second side).
pub struct Board {
    pub cells: Seq<Cell>,
    pub to_move: Player,
    pub scores: (int, int),
}

/// The test "square `p` of `cells` holds `value`".
pub open spec fn holds(cells: Seq<Cell>, value: Cell) -> spec_fn((int, int)) -> bool {
    |p: (int, int)| cells[square_index(p)] == value
}

/// The squares of `cells` that hold `value`, rows top to bottom, columns left
/// to right.
pub open spec fn squares_holding(cells: Seq<Cell>, value: Cell) -> Seq<(int, int)> {
    all_squares().filter(holds(cells, value))
}

impl Board {
    /// The content of square `p`, or `None` when `p` is off the board.
    pub open spec fn value_at(self, p: (int, int)) -> Option<Cell> {
        if in_bounds(p) {
            Some(self.cells[square_index(p)])
        } else {
            None
        }
    }

    /// The squares that hold `value`, in row-major order.
    pub open spec fn positions_with(self, value: Cell) -> Seq<(int, int)> {
        squares_holding(self.cells, value)
    }

    /// The squares that hold a neutral piece, in row-major order.
    pub open spec fn neutral_positions(self) -> Seq<(int, int)> {
        self.positions_with(Cell::Neutral)
    }

    /// The board holds at least the two neutral pieces that a move speaks of.
    pub open spec fn has_neutral_pair(self) -> bool {
        self.neutral_positions().len() >= 2
    }

    /// Whether this is a position of the game: sixteen cells, on which each
    /// side's piece covers the four squares of a placement and exactly two
    /// squares hold a neutral piece, and no score below zero.
    pub open spec fn valid(self) -> bool {
        &&& self.cells.len() == 16
        &&& covers_placement(self.positions_with(Cell::Player1))
        &&& covers_placement(self.positions_with(Cell::Player2))
        &&& self.neutral_positions().len() == 2
        &&& self.scores.0 >= 0
        &&& self.scores.1 >= 0
    }

    /// The score of `player`.
    pub open spec fn score_of(self, player: Player) -> int {
        match player {
            Player::Player1 => self.scores.0,
            Player::Player2 => self.scores.1,
        }
    }
}

/// What `squares_holding` lists, stated for the first `n` squares of the scan:
/// the squares before index `n` that hold `value`, each once and in
/// increasing order of index.
proof fn lemma_squares_holding_prefix(cells: Seq<Cell>, value: Cell, n: int)
    requires
        0 <= n <= 16,
    ensures
        ({
            let found = all_squares().take(n).filter(holds(cells, value));
            &&& forall|i: int|
                0 <= i < found.len() ==> in_bounds(#[trigger] found[i]) && square_index(found[i]) < n
                    && cells[square_index(found[i])] == value
            &&& forall|i: int, j: int|
                0 <= i < j < found.len() ==> square_index(#[trigger] found[i]) < square_index(
                    #[trigger] found[j],
                )
            &&& forall|p: (int, int)|
                in_bounds(p) && square_index(p) < n && cells[square_index(p)] == value
                    ==> #[trigger] found.contains(p)
        }),
    decreases n,
{
    let pred = holds(cells, value);
    if n == 0 {
        assert(all_squares().take(0) =~= Seq::<(int, int)>::empty());
    } else {
        lemma_squares_holding_prefix(cells, value, n - 1);
        let before = all_squares().take(n - 1);
        let last = square_at(n - 1);
        assert(all_squares().take(n) =~= before.push(last));
        before.lemma_filter_push(last, pred);
        let found = all_squares().take(n).filter(pred);
        let earlier = before.filter(pred);
        assert(square_index(last) == n - 1);
        assert forall|p: (int, int)|
            in_bounds(p) && square_index(p) < n && cells[square_index(p)] == value implies #[trigger] found.contains(
            p,
        ) by {
            if square_index(p) == n - 1 {
                assert(p == last);
                assert(found[found.len() - 1] == p);
            } else {
                assert(earlier.contains(p));
                let i = choose|i: int| 0 <= i < earlier.len() && earlier[i] == p;
                assert(found[i] == p);
            }
        }
    }
}

/// `squares_holding(cells, value)` lists exactly the squares of the board that
/// hold `value`, each once, in increasing order of row-major index.
pub proof fn lemma_squares_holding(cells: Seq<Cell>, value: Cell)
    ensures
        forall|p: (int, int)|
            #[trigger] squares_holding(cells, value).contains(p) <==> in_bounds(p)
                && cells[square_index(p)] == value,
        forall|i: int, j: int|
            0 <= i < j < squares_holding(cells, value).len() ==> square_index(
                #[trigger] squares_holding(cells, value)[i],
            ) < square_index(#[trigger] squares_holding(cells, value)[j]),
        squares_holding(cells, value).no_duplicates(),
        squares_holding(cells, value).len() <= 16,
{
    lemma_squares_holding_prefix(cells, value, 16);
    assert(all_squares().take(16) =~= all_squares());
    all_squares().lemma_filter_len(holds(cells, value));
    let found = squares_holding(cells, value);
    assert forall|p: (int, int)| #[trigger] found.contains(p) implies in_bounds(p) && cells[square_index(p)]
        == value by {
        let i = choose|i: int| 0 <= i < found.len() && found[i] == p;
        assert(in_bounds(found[i]));
    }
    assert forall|i: int, j: int| 0 <= i < found.len() && 0 <= j < found.len() && i != j implies found[i]
        != found[j] by {
        if i < j {
            assert(square_index(found[i]) < square_index(found[j]));
        } else {
            assert(square_index(found[j]) < square_index(found[i]));
        }
    }
}

/// The opening position: neutral pieces in two opposite corners, the two
/// pieces interlocked in the middle, the first side to move, no points.
pub open spec fn opening() -> Board {
    Board {
        cells: seq![
            Cell::Neutral, Cell::Empty, Cell::Empty, Cell::Empty,
            Cell::Player1, Cell::Player2, Cell::Player2, Cell::Player2,
            Cell::Player1, Cell::Player1, Cell::Player1, Cell::Player2,
            Cell::Empty, Cell::Empty, Cell::Empty, Cell::Neutral,
        ],
        to_move: Player::Player1,
        scores: (0, 0),
    }
}

/// The opening position is a position of the game.
pub proof fn lemma_opening_valid()
    ensures
        opening().valid(),
        opening().neutral_positions() == seq![(0int, 0int), (3int, 3int)],
{
    let b = opening();
    lemma_squares_holding(b.cells, Cell::Player1);
    lemma_squares_holding(b.cells, Cell::Player2);
    lemma_squares_holding(b.cells, Cell::Neutral);
    let first = footprint((0, 2), 4);
    assert(first[0] == (0int, 2int) && first[1] == (0int, 1int) && first[2] == (1int, 2int)
        && first[3] == (2int, 2int));
    assert forall|p: (int, int)| b.positions_with(Cell::Player1).contains(p) <==> first.contains(
        p,
    ) by {
        if first.contains(p) {
            let j = choose|j: int| 0 <= j < 4 && first[j] == p;
            assert(j == 0 || j == 1 || j == 2 || j == 3);
        }
    }
    assert(b.positions_with(Cell::Player1).to_set() =~= first.to_set());
    let second = footprint((3, 1), 6);
    assert(second[0] == (3int, 1int) && second[1] == (3int, 2int) && second[2] == (2int, 1int)
        && second[3] == (1int, 1int));
    assert forall|p: (int, int)| b.positions_with(Cell::Player2).contains(p) <==> second.contains(
        p,
    ) by {
        if second.contains(p) {
            let j = choose|j: int| 0 <= j < 4 && second[j] == p;
            assert(j == 0 || j == 1 || j == 2 || j == 3);
        }
    }
    assert(b.positions_with(Cell::Player2).to_set() =~= second.to_set());
    let neutrals = b.neutral_positions();
    assert(neutrals.contains((0int, 0int)) && neutrals.contains((3int, 3int)));
    let i0 = choose|j: int| 0 <= j < neutrals.len() && neutrals[j] == (0int, 0int);
    let i1 = choose|j: int| 0 <= j < neutrals.len() && neutrals[j] == (3int, 3int);
    assert(neutrals.contains(neutrals[0]) && neutrals.contains(neutrals[1]));
    if neutrals.len() > 2 {
        assert(neutrals.contains(neutrals[2]));
    }
    if i0 > i1 {
        assert(square_index(neutrals[i1]) < square_index(neutrals[i0]));
    }
    assert(neutrals =~= seq![(0int, 0int), (3int, 3int)]);
}

/// A board position: the grid, the side to move, and the scores of the first
/// and the second side.
#[derive(Clone, Copy, Debug, PartialEq, Eq)]
pub struct BoardState {
    pub board: [Cell; 16],
    pub current_player: Player,
    pub scores: (i32, i32),
}

impl View for BoardState {
    type V = Board;

    open spec fn view(&self) -> Board {
        Board {
            cells: self.board@,
            to_move: self.current_player,
            scores: (self.scores.0 as int, self.scores.1 as int),
        }
    }
}

/// The squares of `cells` that hold `value`, in row-major order.
pub fn find_squares(cells: &[Cell; 16], value: Cell) -> (positions: Vec<[i32; 2]>)
    ensures
        squares_of(positions@) == squares_holding(cells@, value),
{
    let mut positions: Vec<[i32; 2]> = Vec::new();
    let ghost pred = holds(cells@, value);
    proof {
        assert(squares_of(positions@) =~= Seq::<(int, int)>::empty());
        assert(all_squares().take(0) =~= Seq::<(int, int)>::empty());
    }
    for i in 0..16usize
        invariant
            squares_of(positions@) == all_squares().take(i as int).filter(pred),
            pred == holds(cells@, value),
    {
        let p = square(i);
        proof {
            let before = all_squares().take(i as int);
            assert(all_squares().take(i + 1) =~= before.push(square_at(i as int)));
            before.lemma_filter_push(square_at(i as int), pred);
            assert(square_index(square_at(i as int)) == i);
        }
        if cells[i] == value {
            let ghost old_positions = positions@;
            positions.push(p);
            proof {
                assert(squares_of(positions@) =~= squares_of(old_positions).push(square_of(p)));
            }
        }
    }
    proof {
        assert(all_squares().take(16) =~= all_squares());
    }
    positions
}

impl BoardState {
    /// The opening position: neutral pieces in two opposite corners, the two
    /// L-shaped pieces interlocked in the middle, the first side to move, and
    /// no points scored.
    pub fn new() -> (state: BoardState)
        ensures
            state@ == opening(),
    {
        let state = BoardState {
            board: [
                Cell::Neutral, Cell::Empty, Cell::Empty, Cell::Empty,
                Cell::Player1, Cell::Player2, Cell::Player2, Cell::Player2,
                Cell::Player1, Cell::Player1, Cell::Player1, Cell::Player2,
                Cell::Empty, Cell::Empty, Cell::Empty, Cell::Neutral,
            ],
            current_player: Player::Player1,
            scores: (0, 0),
        };
        proof {
            assert(state@.cells =~= seq![
                Cell::Neutral, Cell::Empty, Cell::Empty, Cell::Empty,
                Cell::Player1, Cell::Player2, Cell::Player2, Cell::Player2,
                Cell::Player1, Cell::Player1, Cell::Player1, Cell::Player2,
                Cell::Empty, Cell::Empty, Cell::Empty, Cell::Neutral,
            ]);
        }
        state
    }

    /// The content of square `(x, y)`, or `None` when it is off the board.
    pub fn get_value_at_pos(&self, x: i32, y: i32) -> (value: Option<Cell>)
        ensures
            value == self@.value_at((x as int, y as int)),
    {
        if x < 0 || x >= 4 || y < 0 || y >= 4 {
            None
        } else {
            Some(self.board[(y * 4 + x) as usize])
        }
    }

    /// The squares that hold `value`, rows top to bottom, columns left to
    /// right.
    pub fn get_positions_with_value(&self, value: Cell) -> (positions: Vec<[i32; 2]>)
        ensures
            squares_of(positions@) == self@.positions_with(value),
    {
        find_squares(&self.board, value)
    }

    /// The squares that hold a neutral piece, in row-major order.
    pub fn get_neutral_piece_positions(&self) -> (positions: Vec<[i32; 2]>)
        ensures
            squares_of(positions@) == self@.neutral_positions(),
    {
        self.get_positions_with_value(Cell::Neutral)
    }

    /// The side to move.
    pub fn current_player(&self) -> (player: Player)
        ensures
            player == self@.to_move,
    {
        self.current_player
    }

    /// The side that is not to move.
    pub fn other_player(&self) -> (player: Player)
        ensures
            player == self@.to_move.opponent(),
    {
        self.current_player.other()
    }
}

} // verus!
