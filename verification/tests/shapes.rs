use sketris::piece::{Piece, TestPiece};
use sketris::shape::{
    get_offset, get_piece_color, get_shape, get_shape_idx, i_wall_kicks, wall_kicks, Dir, Kind,
    PieceColor, Position,
};

#[test]
fn shape_indices_round_trip() {
    for i in 0..7u8 {
        assert_eq!(get_shape_idx(get_shape(i)), i as usize);
    }
    assert_eq!(get_shape(0), Kind::I);
    assert_eq!(get_shape(5), Kind::O);
    assert_eq!(get_shape_idx(Kind::T), 6);
}

#[test]
fn offset_table_spawn_orientations() {
    assert_eq!(get_offset(Kind::T, 0), [(0, -1), (-1, 0), (0, 0), (1, 0)]);
    assert_eq!(get_offset(Kind::I, 0), [(-1, 0), (0, 0), (1, 0), (2, 0)]);
    assert_eq!(get_offset(Kind::I, 1), [(1, -1), (1, 0), (1, 1), (1, 2)]);
    for o in 0..4u8 {
        assert_eq!(get_offset(Kind::O, o), [(0, -1), (1, -1), (0, 0), (1, 0)]);
    }
}

#[test]
fn every_orientation_is_a_quarter_turn_of_the_previous() {
    for i in 0..7u8 {
        let shape = get_shape(i);
        for o in 0..4u8 {
            let cells = get_offset(shape, o);
            let next = get_offset(shape, (o + 1) % 4);
            for &(x, y) in cells.iter() {
                let turned = match shape {
                    Kind::I => (1 - y, x),
                    Kind::O => (-y, x - 1),
                    _ => (-y, x),
                };
                assert!(next.contains(&turned), "{:?} {} {:?}", shape, o, turned);
            }
        }
    }
}

#[test]
fn kick_tables_start_in_place() {
    for from in 0..4u8 {
        for dir in 0..2usize {
            assert_eq!(wall_kicks(from, dir)[0], (0, 0));
            assert_eq!(i_wall_kicks(from, dir)[0], (0, 0));
        }
    }
    assert_eq!(wall_kicks(0, 0), [(0, 0), (-1, 0), (-1, -1), (0, 2), (-1, 2)]);
    assert_eq!(i_wall_kicks(0, 0), [(0, 0), (-2, 0), (1, 0), (-2, 1), (1, -2)]);
}

#[test]
fn piece_colors() {
    assert_eq!(get_piece_color(Kind::I), PieceColor::LightBlue);
    assert_eq!(get_piece_color(Kind::L), PieceColor::Rgb(255, 165, 0));
    assert_eq!(get_piece_color(Kind::J), PieceColor::Blue);
    assert_eq!(get_piece_color(Kind::S), PieceColor::Green);
    assert_eq!(get_piece_color(Kind::Z), PieceColor::Red);
    assert_eq!(get_piece_color(Kind::O), PieceColor::Yellow);
    assert_eq!(get_piece_color(Kind::T), PieceColor::Magenta);
}

#[test]
fn new_piece_spawns_unrotated() {
    let p = Piece::new(Kind::S);
    assert_eq!(p.origin, Position::new(4, -1));
    assert_eq!(p.orientation_idx, 0);
    assert_eq!(p.shape, Kind::S);
    assert_eq!(p.offsets, get_offset(Kind::S, 0));
    assert_eq!(p.color, PieceColor::Green);
}

#[test]
fn position_new_keeps_coordinates() {
    let p = Position::new(-3, 17);
    assert_eq!(p.x, -3);
    assert_eq!(p.y, 17);
}

#[test]
fn test_piece_copies_the_piece() {
    let p = Piece::new(Kind::J);
    let t = TestPiece::new(&p);
    assert_eq!(t.origin, p.origin);
    assert_eq!(t.offsets, p.offsets);
    assert_eq!(t.orientation_idx, 0);
    assert_eq!(t.wallkicks, wall_kicks(0, 0));
}

#[test]
fn rotate_clockwise_and_back() {
    let p = Piece::new(Kind::T);
    let mut t = TestPiece::new(&p);
    t.rotate_test_piece(Kind::T, 0, Dir::ClockWise);
    assert_eq!(t.orientation_idx, 1);
    assert_eq!(t.offsets, get_offset(Kind::T, 1));
    assert_eq!(t.wallkicks, wall_kicks(0, 0));
    t.rotate_test_piece(Kind::T, 1, Dir::CounterClockWise);
    assert_eq!(t.orientation_idx, 0);
    assert_eq!(t.offsets, get_offset(Kind::T, 0));
    assert_eq!(t.wallkicks, wall_kicks(1, 1));
    assert_eq!(t.origin, p.origin);
}

#[test]
fn four_clockwise_turns_come_back() {
    let p = Piece::new(Kind::L);
    let mut t = TestPiece::new(&p);
    let mut o = 0u8;
    for _ in 0..4 {
        t.rotate_test_piece(Kind::L, o, Dir::ClockWise);
        o = t.orientation_idx;
    }
    assert_eq!(o, 0);
    assert_eq!(t.offsets, p.offsets);
}

#[test]
fn counter_clockwise_from_spawn() {
    let p = Piece::new(Kind::Z);
    let mut t = TestPiece::new(&p);
    t.rotate_test_piece(Kind::Z, 0, Dir::CounterClockWise);
    assert_eq!(t.orientation_idx, 3);
    assert_eq!(t.offsets, get_offset(Kind::Z, 3));
    assert_eq!(t.wallkicks, wall_kicks(0, 1));
}

#[test]
fn i_piece_uses_its_own_kicks() {
    let p = Piece::new(Kind::I);
    let mut t = TestPiece::new(&p);
    t.rotate_test_piece(Kind::I, 2, Dir::ClockWise);
    assert_eq!(t.orientation_idx, 3);
    assert_eq!(t.wallkicks, i_wall_kicks(2, 0));
}

#[test]
fn o_piece_keeps_its_kicks() {
    let p = Piece::new(Kind::O);
    let mut t = TestPiece::new(&p);
    t.wallkicks = i_wall_kicks(3, 1);
    t.rotate_test_piece(Kind::O, 0, Dir::ClockWise);
    assert_eq!(t.orientation_idx, 1);
    assert_eq!(t.wallkicks, i_wall_kicks(3, 1));
    assert_eq!(t.offsets, get_offset(Kind::O, 1));
}

#[test]
fn update_origin_and_orientation() {
    let mut p = Piece::new(Kind::T);
    let mut t = TestPiece::new(&p);
    t.rotate_test_piece(Kind::T, 0, Dir::ClockWise);
    p.update_origin(Position::new(2, 7));
    p.update_orientation(&t);
    assert_eq!(p.origin, Position::new(2, 7));
    assert_eq!(p.orientation_idx, 1);
    assert_eq!(p.offsets, get_offset(Kind::T, 1));
    assert_eq!(p.shape, Kind::T);
}
