//! The falling piece and the trial copy that moves and rotations are tried on.

use vstd::prelude::*;
use crate::shape::{
    color_of, get_offset, get_piece_color, get_shape_idx, i_wall_kicks, i_wall_kicks_of, offsets_of,
    wall_kicks, wall_kicks_of, Dir, Kind, PieceColor, Position,
};

verus! {

/// Where every new piece appears.
pub open spec fn spawn_origin() -> Position {
    Position { x: 4i32, y: -1i32 }
}

/// The orientation a rotation ends in: clockwise adds a quarter turn, every
/// other direction takes one away.
pub open spec fn turned_orientation(orientation: int, direction: Dir) -> int {
    if direction == Dir::ClockWise {
        (orientation + 1) % 4
    } else {
        (orientation + 3) % 4
    }
}

/// Which column of a wall-kick table a rotation uses.
pub open spec fn kick_column(direction: Dir) -> int {
    if direction == Dir::ClockWise {
        0
    } else {
        1
    }
}

/// The piece in play (or waiting in the preview or the bag).
#[derive(Clone, Copy, Debug)]
pub struct Piece {
    pub origin: Position,
    pub offsets: [(i32, i32); 4],
    pub shape: Kind,
    pub color: PieceColor,
    pub orientation_idx: u8,
}

impl Piece {
    /// The cells, colour and orientation agree with the shape.
    pub open spec fn wf(&self) -> bool {
        &&& self.orientation_idx < 4
        &&& self.offsets == offsets_of(self.shape, self.orientation_idx as int)
        &&& self.color == color_of(self.shape)
    }

    /// A piece of `shape` as it appears: at the spawn point, unrotated.
    pub open spec fn is_fresh(&self, shape: Kind) -> bool {
        &&& self.shape == shape
        &&& self.origin == spawn_origin()
        &&& self.orientation_idx == 0
        &&& self.wf()
    }

    pub fn new(shape: Kind) -> (piece: Self)
        ensures
            piece.is_fresh(shape),
    {
        let origin = Position::new(4, -1);
        let offsets = get_offset(shape, 0);
        Self { origin, offsets, color: get_piece_color(shape), shape, orientation_idx: 0 }
    }

    pub fn update_origin(&mut self, new_origin: Position)
        ensures
            *final(self) == (Piece { origin: new_origin, ..*old(self) }),
    {
        self.origin = new_origin;
    }

    pub fn update_orientation(&mut self, piece: &TestPiece)
        ensures
            *final(self) == (Piece {
                orientation_idx: piece.orientation_idx,
                offsets: piece.offsets,
                ..*old(self)
            }),
    {
        self.orientation_idx = piece.orientation_idx;
        self.offsets = piece.offsets;
    }
}

/// The trial copy of the falling piece: moves and rotations are made on it
/// first and handed to the piece only where they fit.
#[derive(Clone, Copy, Debug)]
pub struct TestPiece {
    pub origin: Position,
    pub offsets: [(i32, i32); 4],
    pub wallkicks: [(i32, i32); 5],
    pub orientation_idx: u8,
}

impl TestPiece {
    /// The trial piece of `shape` turned from `orientation` in `direction`,
    /// with the wall-kick tests of that rotation (an O piece keeps its tests).
    pub open spec fn rotated(self, shape: Kind, orientation: u8, direction: Dir) -> TestPiece {
        let turned = turned_orientation(orientation as int, direction);
        TestPiece {
            origin: self.origin,
            offsets: offsets_of(shape, turned),
            wallkicks: if shape == Kind::I {
                i_wall_kicks_of(orientation as int, kick_column(direction))
            } else if shape != Kind::O {
                wall_kicks_of(orientation as int, kick_column(direction))
            } else {
                self.wallkicks
            },
            orientation_idx: turned as u8,
        }
    }

    /// The trial piece as it is set up for `piece`.
    pub open spec fn following(piece: Piece) -> TestPiece {
        TestPiece {
            origin: piece.origin,
            offsets: piece.offsets,
            wallkicks: wall_kicks_of(0, 0),
            orientation_idx: piece.orientation_idx,
        }
    }

    pub fn new(piece: &Piece) -> (test: Self)
        ensures
            test == TestPiece::following(*piece),
    {
        let origin = piece.origin;
        let offsets = piece.offsets;
        // A placeholder until a rotation picks the right tests.
        let wallkicks = wall_kicks(0, 0);
        let orientation_idx = piece.orientation_idx;
        Self { origin, offsets, wallkicks, orientation_idx }
    }

    /// Turns the trial piece of `shape` from `orientation` in `direction` and
    /// picks the wall-kick tests of that rotation (an O piece keeps its tests).
    pub fn rotate_test_piece(&mut self, shape: Kind, orientation: u8, direction: Dir)
        requires
            shape == Kind::O || orientation < 4,
            direction == Dir::ClockWise ==> orientation < 255,
            direction != Dir::ClockWise ==> orientation < 253,
        ensures
            *final(self) == old(self).rotated(shape, orientation, direction),
    {
        let shape_idx = get_shape_idx(shape);
        let mut test_idx: usize = 0;
        if direction == Dir::ClockWise {
            self.orientation_idx = (orientation + 1) % 4;
        } else {
            self.orientation_idx = (orientation + 3) % 4;
            test_idx = 1;
        };
        self.offsets = get_offset(shape, self.orientation_idx);
        if shape == Kind::I {
            self.wallkicks = i_wall_kicks(orientation, test_idx);
        } else if shape != Kind::O {
            self.wallkicks = wall_kicks(orientation, test_idx);
        }
    }
}

/// A clockwise turn and a counter-clockwise turn undo each other, and four
/// turns the same way bring a piece back to where it started.
pub proof fn lemma_turns_undo(orientation: int)
    requires
        0 <= orientation < 4,
    ensures
        turned_orientation(turned_orientation(orientation, Dir::ClockWise), Dir::CounterClockWise)
            == orientation,
        turned_orientation(turned_orientation(orientation, Dir::CounterClockWise), Dir::ClockWise)
            == orientation,
        turned_orientation(
            turned_orientation(
                turned_orientation(turned_orientation(orientation, Dir::ClockWise), Dir::ClockWise),
                Dir::ClockWise,
            ),
            Dir::ClockWise,
        ) == orientation,
        0 <= turned_orientation(orientation, Dir::ClockWise) < 4,
        0 <= turned_orientation(orientation, Dir::CounterClockWise) < 4,
{
}

/// J, L, S, T and Z share one set of wall-kick tests; the I piece's tests
/// differ from them in every rotation; an O piece keeps the tests it had.
/// The first test never moves the piece, and the second shifts it one
/// column (left when turning clockwise from spawn or from the left side, or
/// counter-clockwise from the flat sides facing down or left; right otherwise).
pub proof fn lemma_rotation_kicks(test: TestPiece, shape: Kind, orientation: u8, direction: Dir)
    requires
        orientation < 4,
    ensures
        shape != Kind::I && shape != Kind::O ==> test.rotated(shape, orientation, direction).wallkicks
            == test.rotated(Kind::T, orientation, direction).wallkicks,
        test.rotated(Kind::T, orientation, direction).wallkicks != test.rotated(
            Kind::I,
            orientation,
            direction,
        ).wallkicks,
        test.rotated(Kind::O, orientation, direction).wallkicks == test.wallkicks,
        test.rotated(Kind::T, orientation, direction).wallkicks[0] == (0i32, 0i32),
        test.rotated(Kind::T, orientation, direction).wallkicks[1] == (if (direction
            == Dir::ClockWise && (orientation == 0 || orientation == 3)) || (direction
            != Dir::ClockWise && (orientation == 2 || orientation == 3)) {
            (-1i32, 0i32)
        } else {
            (1i32, 0i32)
        }),
{
    let t = test.rotated(Kind::T, orientation, direction).wallkicks;
    let i = test.rotated(Kind::I, orientation, direction).wallkicks;
    assert(t[1] != i[1]);
}

} // verus!
