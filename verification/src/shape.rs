//! Piece shapes, their cell tables and the wall-kick tables.

use vstd::prelude::*;

verus! {

/// The seven tetromino shapes.
#[derive(Clone, Copy, Debug, PartialEq, Eq, Structural)]
pub enum Kind {
    I,
    L,
    J,
    S,
    Z,
    O,
    T,
}

/// The position of a piece's origin in the well: `x` grows to the right,
/// `y` grows downwards, row 0 is the top row of the well.
#[derive(Clone, Copy, Debug, PartialEq, Eq, Structural)]
pub struct Position {
    pub x: i32,
    pub y: i32,
}

impl Position {
    pub fn new(x: i32, y: i32) -> (p: Self)
        ensures
            p.x == x,
            p.y == y,
    {
        Self { x, y }
    }
}

/// The index of a shape in the tables (I, L, J, S, Z, O, T in that order).
pub open spec fn shape_index(shape: Kind) -> int {
    match shape {
        Kind::I => 0,
        Kind::L => 1,
        Kind::J => 2,
        Kind::S => 3,
        Kind::Z => 4,
        Kind::O => 5,
        Kind::T => 6,
    }
}

/// The shape at a table index.
pub open spec fn shape_at(idx: int) -> Kind {
    if idx == 0 {
        Kind::I
    } else if idx == 1 {
        Kind::L
    } else if idx == 2 {
        Kind::J
    } else if idx == 3 {
        Kind::S
    } else if idx == 4 {
        Kind::Z
    } else if idx == 5 {
        Kind::O
    } else {
        Kind::T
    }
}

pub fn get_shape_idx(shape: Kind) -> (idx: usize)
    ensures
        idx == shape_index(shape),
        idx < 7,
{
    match shape {
        Kind::I => 0,
        Kind::L => 1,
        Kind::J => 2,
        Kind::S => 3,
        Kind::Z => 4,
        Kind::O => 5,
        Kind::T => 6,
    }
}

pub fn get_shape(idx: u8) -> (shape: Kind)
    requires
        idx < 7,
    ensures
        shape == shape_at(idx as int),
{
    match idx {
        0 => Kind::I,
        1 => Kind::L,
        2 => Kind::J,
        3 => Kind::S,
        4 => Kind::Z,
        5 => Kind::O,
        _ => Kind::T,
    }
}

/// `get_shape` and `get_shape_idx` undo each other: every shape sits at
/// exactly one index below seven.
pub proof fn lemma_shape_index_round_trip(shape: Kind, idx: int)
    requires
        0 <= idx < 7,
    ensures
        shape_at(shape_index(shape)) == shape,
        shape_index(shape_at(idx)) == idx,
        0 <= shape_index(shape) < 7,
{
}

/// The cells of a shape in one of its four orientations, relative to the
/// piece's origin (orientation 0 is the spawn orientation, each next one a
/// quarter turn clockwise).
pub open spec fn offsets_of(shape: Kind, orientation: int) -> [(i32, i32); 4] {
    match shape {
        Kind::I => if orientation == 0 {
            [(-1i32, 0i32), (0i32, 0i32), (1i32, 0i32), (2i32, 0i32)]
        } else if orientation == 1 {
            [(1i32, -1i32), (1i32, 0i32), (1i32, 1i32), (1i32, 2i32)]
        } else if orientation == 2 {
            [(-1i32, 1i32), (0i32, 1i32), (1i32, 1i32), (2i32, 1i32)]
        } else {
            [(0i32, -1i32), (0i32, 0i32), (0i32, 1i32), (0i32, 2i32)]
        },
        Kind::L => if orientation == 0 {
            [(1i32, -1i32), (-1i32, 0i32), (0i32, 0i32), (1i32, 0i32)]
        } else if orientation == 1 {
            [(0i32, -1i32), (0i32, 0i32), (0i32, 1i32), (1i32, 1i32)]
        } else if orientation == 2 {
            [(-1i32, 0i32), (0i32, 0i32), (1i32, 0i32), (-1i32, 1i32)]
        } else {
            [(-1i32, -1i32), (0i32, -1i32), (0i32, 0i32), (0i32, 1i32)]
        },
        Kind::J => if orientation == 0 {
            [(-1i32, -1i32), (-1i32, 0i32), (0i32, 0i32), (1i32, 0i32)]
        } else if orientation == 1 {
            [(0i32, -1i32), (1i32, -1i32), (0i32, 0i32), (0i32, 1i32)]
        } else if orientation == 2 {
            [(-1i32, 0i32), (0i32, 0i32), (1i32, 0i32), (1i32, 1i32)]
        } else {
            [(0i32, -1i32), (0i32, 0i32), (-1i32, 1i32), (0i32, 1i32)]
        },
        Kind::S => if orientation == 0 {
            [(0i32, -1i32), (1i32, -1i32), (-1i32, 0i32), (0i32, 0i32)]
        } else if orientation == 1 {
            [(0i32, -1i32), (0i32, 0i32), (1i32, 0i32), (1i32, 1i32)]
        } else if orientation == 2 {
            [(0i32, 0i32), (1i32, 0i32), (-1i32, 1i32), (0i32, 1i32)]
        } else {
            [(-1i32, -1i32), (-1i32, 0i32), (0i32, 0i32), (0i32, 1i32)]
        },
        Kind::Z => if orientation == 0 {
            [(-1i32, -1i32), (0i32, -1i32), (0i32, 0i32), (1i32, 0i32)]
        } else if orientation == 1 {
            [(1i32, -1i32), (0i32, 0i32), (1i32, 0i32), (0i32, 1i32)]
        } else if orientation == 2 {
            [(-1i32, 0i32), (0i32, 0i32), (0i32, 1i32), (1i32, 1i32)]
        } else {
            [(0i32, -1i32), (-1i32, 0i32), (0i32, 0i32), (-1i32, 1i32)]
        },
        Kind::O => [(0i32, -1i32), (1i32, -1i32), (0i32, 0i32), (1i32, 0i32)],
        Kind::T => if orientation == 0 {
            [(0i32, -1i32), (-1i32, 0i32), (0i32, 0i32), (1i32, 0i32)]
        } else if orientation == 1 {
            [(0i32, -1i32), (0i32, 0i32), (1i32, 0i32), (0i32, 1i32)]
        } else if orientation == 2 {
            [(-1i32, 0i32), (0i32, 0i32), (1i32, 0i32), (0i32, 1i32)]
        } else {
            [(0i32, -1i32), (-1i32, 0i32), (0i32, 0i32), (0i32, 1i32)]
        },
    }
}

/// The wall-kick tests of J, L, S, T and Z for a rotation that starts in
/// orientation `from`; `test_idx` 0 is a clockwise turn, 1 a counter-clockwise one.
pub open spec fn wall_kicks_of(from: int, test_idx: int) -> [(i32, i32); 5] {
    if from == 0 && test_idx == 0 {
        [(0i32, 0i32), (-1i32, 0i32), (-1i32, -1i32), (0i32, 2i32), (-1i32, 2i32)]
    } else if from == 0 && test_idx == 1 {
        [(0i32, 0i32), (1i32, 0i32), (1i32, -1i32), (0i32, 2i32), (1i32, 2i32)]
    } else if from == 1 && test_idx == 0 {
        [(0i32, 0i32), (1i32, 0i32), (1i32, 1i32), (0i32, -2i32), (1i32, -2i32)]
    } else if from == 1 && test_idx == 1 {
        [(0i32, 0i32), (1i32, 0i32), (1i32, 1i32), (0i32, -2i32), (1i32, -2i32)]
    } else if from == 2 && test_idx == 0 {
        [(0i32, 0i32), (1i32, 0i32), (1i32, -1i32), (0i32, 2i32), (1i32, 2i32)]
    } else if from == 2 && test_idx == 1 {
        [(0i32, 0i32), (-1i32, 0i32), (-1i32, -1i32), (0i32, 2i32), (-1i32, 2i32)]
    } else if from == 3 && test_idx == 0 {
        [(0i32, 0i32), (-1i32, 0i32), (-1i32, 1i32), (0i32, -2i32), (-1i32, -2i32)]
    } else {
        [(0i32, 0i32), (-1i32, 0i32), (-1i32, 1i32), (0i32, -2i32), (-1i32, -2i32)]
    }
}

/// The wall-kick tests of I, indexed as in `wall_kicks_of`.
pub open spec fn i_wall_kicks_of(from: int, test_idx: int) -> [(i32, i32); 5] {
    if from == 0 && test_idx == 0 {
        [(0i32, 0i32), (-2i32, 0i32), (1i32, 0i32), (-2i32, 1i32), (1i32, -2i32)]
    } else if from == 0 && test_idx == 1 {
        [(0i32, 0i32), (-1i32, 0i32), (2i32, 0i32), (-1i32, -2i32), (2i32, 1i32)]
    } else if from == 1 && test_idx == 0 {
        [(0i32, 0i32), (-1i32, 0i32), (2i32, 0i32), (-1i32, -2i32), (2i32, 1i32)]
    } else if from == 1 && test_idx == 1 {
        [(0i32, 0i32), (2i32, 0i32), (-1i32, 0i32), (2i32, -1i32), (-1i32, 2i32)]
    } else if from == 2 && test_idx == 0 {
        [(0i32, 0i32), (2i32, 0i32), (-1i32, 0i32), (2i32, -1i32), (-1i32, 2i32)]
    } else if from == 2 && test_idx == 1 {
        [(0i32, 0i32), (1i32, 0i32), (-2i32, 0i32), (1i32, 2i32), (-2i32, -1i32)]
    } else if from == 3 && test_idx == 0 {
        [(0i32, 0i32), (1i32, 0i32), (-2i32, 0i32), (1i32, 2i32), (-2i32, -1i32)]
    } else {
        [(0i32, 0i32), (-2i32, 0i32), (1i32, 0i32), (-2i32, 1i32), (1i32, -2i32)]
    }
}

pub fn get_offset(shape: Kind, orientation: u8) -> (offsets: [(i32, i32); 4])
    requires
        orientation < 4,
    ensures
        offsets == offsets_of(shape, orientation as int),
{
    match shape {
        Kind::I => if orientation == 0 {
            [(-1, 0), (0, 0), (1, 0), (2, 0)]
        } else if orientation == 1 {
            [(1, -1), (1, 0), (1, 1), (1, 2)]
        } else if orientation == 2 {
            [(-1, 1), (0, 1), (1, 1), (2, 1)]
        } else {
            [(0, -1), (0, 0), (0, 1), (0, 2)]
        },
        Kind::L => if orientation == 0 {
            [(1, -1), (-1, 0), (0, 0), (1, 0)]
        } else if orientation == 1 {
            [(0, -1), (0, 0), (0, 1), (1, 1)]
        } else if orientation == 2 {
            [(-1, 0), (0, 0), (1, 0), (-1, 1)]
        } else {
            [(-1, -1), (0, -1), (0, 0), (0, 1)]
        },
        Kind::J => if orientation == 0 {
            [(-1, -1), (-1, 0), (0, 0), (1, 0)]
        } else if orientation == 1 {
            [(0, -1), (1, -1), (0, 0), (0, 1)]
        } else if orientation == 2 {
            [(-1, 0), (0, 0), (1, 0), (1, 1)]
        } else {
            [(0, -1), (0, 0), (-1, 1), (0, 1)]
        },
        Kind::S => if orientation == 0 {
            [(0, -1), (1, -1), (-1, 0), (0, 0)]
        } else if orientation == 1 {
            [(0, -1), (0, 0), (1, 0), (1, 1)]
        } else if orientation == 2 {
            [(0, 0), (1, 0), (-1, 1), (0, 1)]
        } else {
            [(-1, -1), (-1, 0), (0, 0), (0, 1)]
        },
        Kind::Z => if orientation == 0 {
            [(-1, -1), (0, -1), (0, 0), (1, 0)]
        } else if orientation == 1 {
            [(1, -1), (0, 0), (1, 0), (0, 1)]
        } else if orientation == 2 {
            [(-1, 0), (0, 0), (0, 1), (1, 1)]
        } else {
            [(0, -1), (-1, 0), (0, 0), (-1, 1)]
        },
        Kind::O => [(0, -1), (1, -1), (0, 0), (1, 0)],
        Kind::T => if orientation == 0 {
            [(0, -1), (-1, 0), (0, 0), (1, 0)]
        } else if orientation == 1 {
            [(0, -1), (0, 0), (1, 0), (0, 1)]
        } else if orientation == 2 {
            [(-1, 0), (0, 0), (1, 0), (0, 1)]
        } else {
            [(0, -1), (-1, 0), (0, 0), (0, 1)]
        },
    }
}

/// Looks up the J, L, S, T and Z wall-kick tests.
pub fn wall_kicks(from: u8, test_idx: usize) -> (kicks: [(i32, i32); 5])
    requires
        from < 4,
        test_idx < 2,
    ensures
        kicks == wall_kicks_of(from as int, test_idx as int),
{
    if from == 0 && test_idx == 0 {
        [(0, 0), (-1, 0), (-1, -1), (0, 2), (-1, 2)]
    } else if from == 0 && test_idx == 1 {
        [(0, 0), (1, 0), (1, -1), (0, 2), (1, 2)]
    } else if from == 1 && test_idx == 0 {
        [(0, 0), (1, 0), (1, 1), (0, -2), (1, -2)]
    } else if from == 1 && test_idx == 1 {
        [(0, 0), (1, 0), (1, 1), (0, -2), (1, -2)]
    } else if from == 2 && test_idx == 0 {
        [(0, 0), (1, 0), (1, -1), (0, 2), (1, 2)]
    } else if from == 2 && test_idx == 1 {
        [(0, 0), (-1, 0), (-1, -1), (0, 2), (-1, 2)]
    } else if from == 3 && test_idx == 0 {
        [(0, 0), (-1, 0), (-1, 1), (0, -2), (-1, -2)]
    } else {
        [(0, 0), (-1, 0), (-1, 1), (0, -2), (-1, -2)]
    }
}

/// Looks up the I wall-kick tests.
pub fn i_wall_kicks(from: u8, test_idx: usize) -> (kicks: [(i32, i32); 5])
    requires
        from < 4,
        test_idx < 2,
    ensures
        kicks == i_wall_kicks_of(from as int, test_idx as int),
{
    if from == 0 && test_idx == 0 {
        [(0, 0), (-2, 0), (1, 0), (-2, 1), (1, -2)]
    } else if from == 0 && test_idx == 1 {
        [(0, 0), (-1, 0), (2, 0), (-1, -2), (2, 1)]
    } else if from == 1 && test_idx == 0 {
        [(0, 0), (-1, 0), (2, 0), (-1, -2), (2, 1)]
    } else if from == 1 && test_idx == 1 {
        [(0, 0), (2, 0), (-1, 0), (2, -1), (-1, 2)]
    } else if from == 2 && test_idx == 0 {
        [(0, 0), (2, 0), (-1, 0), (2, -1), (-1, 2)]
    } else if from == 2 && test_idx == 1 {
        [(0, 0), (1, 0), (-2, 0), (1, 2), (-2, -1)]
    } else if from == 3 && test_idx == 0 {
        [(0, 0), (1, 0), (-2, 0), (1, 2), (-2, -1)]
    } else {
        [(0, 0), (-2, 0), (1, 0), (-2, 1), (1, -2)]
    }
}

/// Every cell of a table entry lies within one column left and two right
/// of the origin, and within one row above and two below it.
pub open spec fn offsets_bounded(offsets: [(i32, i32); 4]) -> bool {
    forall|i: int|
        0 <= i < 4 ==> -1 <= #[trigger] offsets[i].0 <= 2 && -1 <= offsets[i].1 <= 2
}

/// Every wall-kick test moves the origin by at most two cells in each direction.
pub open spec fn kicks_bounded(kicks: [(i32, i32); 5]) -> bool {
    forall|i: int|
        0 <= i < 5 ==> -2 <= #[trigger] kicks[i].0 <= 2 && -2 <= kicks[i].1 <= 2
}

pub proof fn lemma_offsets_bounded(shape: Kind, orientation: int)
    ensures
        offsets_bounded(offsets_of(shape, orientation)),
{
}

pub proof fn lemma_kicks_bounded(from: int, test_idx: int)
    ensures
        kicks_bounded(wall_kicks_of(from, test_idx)),
        kicks_bounded(i_wall_kicks_of(from, test_idx)),
{
}

/// A cell of `shape` turned a quarter clockwise about the shape's centre of
/// rotation (a cell corner for I and O, the origin cell for the others).
pub open spec fn quarter_turn(shape: Kind, cell: (i32, i32)) -> (int, int) {
    match shape {
        Kind::I => (1 - cell.1, cell.0 as int),
        Kind::O => (-cell.1, cell.0 - 1),
        _ => (-cell.1, cell.0 as int),
    }
}

/// The four cells hold the given one.
pub open spec fn holds_cell(cells: [(i32, i32); 4], cell: (int, int)) -> bool {
    exists|j: int| 0 <= j < 4 && cells[j].0 == cell.0 && #[trigger] cells[j].1 == cell.1
}

/// Each orientation's cells are the previous orientation's cells turned a
/// quarter clockwise.
pub proof fn lemma_orientations_turn(shape: Kind, orientation: int, i: int)
    requires
        0 <= orientation < 4,
        0 <= i < 4,
    ensures
        holds_cell(
            offsets_of(shape, (orientation + 1) % 4),
            quarter_turn(shape, offsets_of(shape, orientation)[i]),
        ),
{
    let next = offsets_of(shape, (orientation + 1) % 4);
    let c = quarter_turn(shape, offsets_of(shape, orientation)[i]);
    if next[0].0 == c.0 && next[0].1 == c.1 {
        assert(holds_cell(next, c));
    } else if next[1].0 == c.0 && next[1].1 == c.1 {
        assert(holds_cell(next, c));
    } else if next[2].0 == c.0 && next[2].1 == c.1 {
        assert(holds_cell(next, c));
    } else {
        assert(next[3].0 == c.0 && next[3].1 == c.1);
        assert(holds_cell(next, c));
    }
}

/// Every wall-kick table starts with the test that does not move the piece.
pub proof fn lemma_first_kick_stays(from: int, test_idx: int)
    ensures
        wall_kicks_of(from, test_idx)[0] == (0i32, 0i32),
        i_wall_kicks_of(from, test_idx)[0] == (0i32, 0i32),
{
}

/// The colour a shape is drawn in.
#[derive(Clone, Copy, Debug, PartialEq, Eq, Structural)]
pub enum PieceColor {
    LightBlue,
    Rgb(u8, u8, u8),
    Blue,
    Green,
    Red,
    Yellow,
    Magenta,
}

pub open spec fn color_of(piece: Kind) -> PieceColor {
    match piece {
        Kind::I => PieceColor::LightBlue,
        Kind::L => PieceColor::Rgb(255, 165, 0),
        Kind::J => PieceColor::Blue,
        Kind::S => PieceColor::Green,
        Kind::Z => PieceColor::Red,
        Kind::O => PieceColor::Yellow,
        Kind::T => PieceColor::Magenta,
    }
}

pub fn get_piece_color(piece: Kind) -> (color: PieceColor)
    ensures
        color == color_of(piece),
{
    match piece {
        Kind::I => PieceColor::LightBlue,
        Kind::L => PieceColor::Rgb(255, 165, 0),
        Kind::J => PieceColor::Blue,
        Kind::S => PieceColor::Green,
        Kind::Z => PieceColor::Red,
        Kind::O => PieceColor::Yellow,
        Kind::T => PieceColor::Magenta,
    }
}

/// A direction of movement or rotation.
#[derive(Clone, Copy, Debug, PartialEq, Eq, Structural)]
pub enum Dir {
    Left,
    Right,
    Down,
    CounterClockWise,
    ClockWise,
}

/// Whether the game goes on.
#[derive(Clone, Copy, Debug, PartialEq, Eq, Structural)]
pub enum State {
    GameOver,
    Playing,
}

} // verus!
