//! Squares of the 4x4 grid and the eight placements of the L-shaped piece.

use vstd::prelude::*;

verus! {

/// A square `(x, y)` lies on the board when both coordinates are in `0..4`.
pub open spec fn in_bounds(p: (int, int)) -> bool {
    0 <= p.0 < 4 && 0 <= p.1 < 4
}

/// Row-major index of the square `(x, y)`.
pub open spec fn square_index(p: (int, int)) -> int {
    p.1 * 4 + p.0
}

/// The square with row-major index `i`.
pub open spec fn square_at(i: int) -> (int, int) {
    (i % 4, i / 4)
}

/// All squares of the board, rows top to bottom, columns left to right.
pub open spec fn all_squares() -> Seq<(int, int)> {
    Seq::new(16, |i: int| square_at(i))
}

/// The mathematical square that a coordinate pair stands for.
pub open spec fn square_of(p: [i32; 2]) -> (int, int) {
    (p[0] as int, p[1] as int)
}

/// The mathematical squares of a sequence of coordinate pairs.
pub open spec fn squares_of(ps: Seq<[i32; 2]>) -> Seq<(int, int)> {
    ps.map_values(|p: [i32; 2]| square_of(p))
}

/// Relative offsets `(dx, dy)` of the four cells of the L-shaped piece in
/// orientation `o`, anchor first. The orientations `0..8` are the four
/// rotations of the piece and their mirror images: three cells in a line and
/// one more beside an end of that line.
pub open spec fn offsets(o: int) -> Seq<(int, int)> {
    if o == 0 {
        seq![(0, 0), (0, 1), (1, 0), (2, 0)]
    } else if o == 1 {
        seq![(0, 0), (-1, 0), (0, 1), (0, 2)]
    } else if o == 2 {
        seq![(0, 0), (0, -1), (-1, 0), (-2, 0)]
    } else if o == 3 {
        seq![(0, 0), (1, 0), (0, -1), (0, -2)]
    } else if o == 4 {
        seq![(0, 0), (0, -1), (1, 0), (2, 0)]
    } else if o == 5 {
        seq![(0, 0), (-1, 0), (0, -1), (0, -2)]
    } else if o == 6 {
        seq![(0, 0), (0, 1), (-1, 0), (-2, 0)]
    } else {
        seq![(0, 0), (1, 0), (0, 1), (0, 2)]
    }
}

/// The four squares that the piece covers when it is anchored at `anchor` in
/// orientation `o`, in the order of `offsets(o)`.
pub open spec fn footprint(anchor: (int, int), o: int) -> Seq<(int, int)> {
    Seq::new(4, |k: int| (anchor.0 + offsets(o)[k].0, anchor.1 + offsets(o)[k].1))
}

/// Whether `cells` is a placement of the piece: the footprint of one of the
/// eight orientations at some anchor.
pub open spec fn is_placement(cells: Seq<(int, int)>) -> bool {
    exists|anchor: (int, int), o: int| 0 <= o < 8 && cells == #[trigger] footprint(anchor, o)
}

/// Whether `squares` are, in some order, the four squares of a placement of
/// the piece.
pub open spec fn covers_placement(squares: Seq<(int, int)>) -> bool {
    exists|anchor: (int, int), o: int|
        0 <= o < 8 && squares.to_set() == (#[trigger] footprint(anchor, o)).to_set()
}

/// The offsets of orientation `o`, anchor first.
pub fn orientation(o: usize) -> (r: [[i32; 2]; 4])
    requires
        o < 8,
    ensures
        forall|k: int| 0 <= k < 4 ==> square_of(#[trigger] r[k]) == offsets(o as int)[k],
{
    if o == 0 {
        [[0, 0], [0, 1], [1, 0], [2, 0]]
    } else if o == 1 {
        [[0, 0], [-1, 0], [0, 1], [0, 2]]
    } else if o == 2 {
        [[0, 0], [0, -1], [-1, 0], [-2, 0]]
    } else if o == 3 {
        [[0, 0], [1, 0], [0, -1], [0, -2]]
    } else if o == 4 {
        [[0, 0], [0, -1], [1, 0], [2, 0]]
    } else if o == 5 {
        [[0, 0], [-1, 0], [0, -1], [0, -2]]
    } else if o == 6 {
        [[0, 0], [0, 1], [-1, 0], [-2, 0]]
    } else {
        [[0, 0], [1, 0], [0, 1], [0, 2]]
    }
}

/// The coordinate pair of the square with row-major index `i`.
pub fn square(i: usize) -> (r: [i32; 2])
    requires
        i < 16,
    ensures
        square_of(r) == square_at(i as int),
        in_bounds(square_of(r)),
{
    [(i % 4) as i32, (i / 4) as i32]
}

/// The four squares covered by the piece anchored at `anchor` in orientation
/// `o`.
pub fn place_piece(anchor: [i32; 2], o: usize) -> (r: [[i32; 2]; 4])
    requires
        o < 8,
        in_bounds(square_of(anchor)),
    ensures
        Seq::new(4, |k: int| square_of(r[k])) == footprint(square_of(anchor), o as int),
{
    let d = orientation(o);
    let r = [
        [anchor[0] + d[0][0], anchor[1] + d[0][1]],
        [anchor[0] + d[1][0], anchor[1] + d[1][1]],
        [anchor[0] + d[2][0], anchor[1] + d[2][1]],
        [anchor[0] + d[3][0], anchor[1] + d[3][1]],
    ];
    assert(Seq::new(4, |k: int| square_of(r[k])) =~= footprint(square_of(anchor), o as int));
    r
}

} // verus!
