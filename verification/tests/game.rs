use sketris::bag::Bag;
use sketris::game::{Sketris, FALL_INTERVAL_NS, LOCK_DOWN_NS, SOFT_DROP_INTERVAL_NS};
use sketris::input::{KeyCode, KeyEvent, KeyKind};
use sketris::piece::{Piece, TestPiece};
use sketris::shape::{get_offset, wall_kicks, Kind, Position, State};

const MS: u64 = 1_000_000;

fn game_with(cells: [[bool; 10]; 20], mut piece: Piece, origin: Position) -> Sketris {
    piece.origin = origin;
    let test_piece = TestPiece::new(&piece);
    Sketris {
        exit: false,
        play_area_cells: cells,
        bag: Bag::new(),
        current_piece: piece,
        test_piece,
        next_piece: Some(Piece::new(Kind::O)),
        gravity_interval: FALL_INTERVAL_NS,
        last_gravity: 0,
        soft_drop: false,
        hard_drop: false,
        rotation_pressed: false,
        horizontal_move: 0,
        lock_down_timer: LOCK_DOWN_NS,
        lock_down_counter: 0,
        last_lock_down: 0,
        lines: 0,
        points: 0,
        state: State::Playing,
    }
}

/// Rows from `first` to 19 full except columns 3 to 6.
fn well_with_gap(first: usize) -> [[bool; 10]; 20] {
    let mut cells = [[false; 10]; 20];
    for y in first..20 {
        for x in 0..10 {
            cells[y][x] = !(3..7).contains(&x);
        }
    }
    cells
}

fn press(code: KeyCode) -> KeyEvent {
    KeyEvent { code, kind: KeyKind::Press, control: false }
}

fn release(code: KeyCode) -> KeyEvent {
    KeyEvent { code, kind: KeyKind::Release, control: false }
}

fn count_cells(cells: &[[bool; 10]; 20]) -> usize {
    cells.iter().map(|r| r.iter().filter(|c| **c).count()).sum()
}

#[test]
fn new_game_starts_empty() {
    let g = Sketris::new(7);
    assert_eq!(g.state, State::Playing);
    assert_eq!(g.lines, 0);
    assert_eq!(g.points, 0);
    assert_eq!(count_cells(&g.play_area_cells), 0);
    assert_eq!(g.current_piece.origin, Position::new(4, -1));
    assert!(g.next_piece.is_some());
    assert_ne!(g.next_piece.unwrap().shape, g.current_piece.shape);
    assert_eq!(g.gravity_interval, 500 * MS);
    assert_eq!(g.lock_down_timer, 500 * MS);
    assert_eq!(g.last_gravity, 7);
    assert_eq!(g.last_lock_down, 7);
    assert_eq!(g.test_piece.origin, g.current_piece.origin);
    assert!(!g.exit && !g.soft_drop && !g.hard_drop);
}

#[test]
fn single_line_scores_forty() {
    let mut g = game_with(well_with_gap(19), Piece::new(Kind::I), Position::new(4, 19));
    g.update_play_area_cells();
    assert_eq!(g.lines, 1);
    assert_eq!(g.points, 40);
    assert_eq!(count_cells(&g.play_area_cells), 0);
    assert_eq!(g.state, State::Playing);
}

#[test]
fn two_and_three_lines_score() {
    // An upright I (orientation 1) with origin (3, 17) fills column 4, rows 16 to 19.
    let mut cells = [[false; 10]; 20];
    for y in 18..20 {
        for x in 0..10 {
            cells[y][x] = x != 4;
        }
    }
    let mut piece = Piece::new(Kind::I);
    piece.offsets = get_offset(Kind::I, 1);
    piece.orientation_idx = 1;
    let mut g = game_with(cells, piece, Position::new(3, 17));
    g.update_play_area_cells();
    assert_eq!(g.lines, 2);
    assert_eq!(g.points, 100);
    // The two cells of the piece above the cleared rows fell by two rows.
    assert!(g.play_area_cells[19][4] && g.play_area_cells[18][4]);
    assert_eq!(count_cells(&g.play_area_cells), 2);

    let mut cells = [[false; 10]; 20];
    for y in 17..20 {
        for x in 0..10 {
            cells[y][x] = x != 4;
        }
    }
    let mut g = game_with(cells, piece, Position::new(3, 17));
    g.update_play_area_cells();
    assert_eq!(g.lines, 3);
    assert_eq!(g.points, 300);
    assert_eq!(count_cells(&g.play_area_cells), 1);
    assert!(g.play_area_cells[19][4]);
}

#[test]
fn tetris_scores_twelve_hundred() {
    let mut cells = [[false; 10]; 20];
    for y in 16..20 {
        for x in 0..10 {
            cells[y][x] = x != 4;
        }
    }
    cells[15][0] = true;
    let mut piece = Piece::new(Kind::I);
    piece.offsets = get_offset(Kind::I, 1);
    piece.orientation_idx = 1;
    let mut g = game_with(cells, piece, Position::new(3, 17));
    g.update_play_area_cells();
    assert_eq!(g.lines, 4);
    assert_eq!(g.points, 1200);
    assert_eq!(count_cells(&g.play_area_cells), 1);
    assert!(g.play_area_cells[19][0]);
}

#[test]
fn rows_above_settle_in_order() {
    let mut cells = well_with_gap(19);
    cells[17][9] = true;
    cells[18][0] = true;
    let mut g = game_with(cells, Piece::new(Kind::I), Position::new(4, 19));
    g.update_play_area_cells();
    assert!(g.play_area_cells[18][9]);
    assert!(g.play_area_cells[19][0]);
    assert_eq!(count_cells(&g.play_area_cells), 2);
    for row in g.play_area_cells.iter() {
        assert!(!row.iter().all(|c| *c));
    }
}

#[test]
fn top_row_is_copied_down_when_rows_clear() {
    let mut cells = well_with_gap(19);
    cells[0][2] = true;
    let mut g = game_with(cells, Piece::new(Kind::I), Position::new(4, 19));
    g.update_play_area_cells();
    assert!(g.play_area_cells[0][2]);
    assert!(g.play_area_cells[1][2]);
    assert_eq!(count_cells(&g.play_area_cells), 2);
}

#[test]
fn locking_above_the_well_ends_the_game() {
    // T at origin (4, 0): its first cell (0, -1) lies above the well.
    let mut g = game_with([[false; 10]; 20], Piece::new(Kind::T), Position::new(4, 0));
    g.update_play_area_cells();
    assert_eq!(g.state, State::GameOver);
    assert_eq!(count_cells(&g.play_area_cells), 0);
    assert_eq!(g.lines, 0);

    let mut piece = Piece::new(Kind::J);
    piece.offsets = get_offset(Kind::J, 3);
    piece.orientation_idx = 3;
    // J orientation 3: (0,-1) first.
    let mut g = game_with([[false; 10]; 20], piece, Position::new(4, 0));
    g.update_play_area_cells();
    assert_eq!(g.state, State::GameOver);

    // I in orientation 2 at (4, -1): cells (3..6, 0) all inside the well.
    let mut piece = Piece::new(Kind::I);
    piece.offsets = get_offset(Kind::I, 2);
    piece.orientation_idx = 2;
    let mut g = game_with([[false; 10]; 20], piece, Position::new(4, -1));
    g.update_play_area_cells();
    assert_eq!(g.state, State::Playing);
    assert_eq!(count_cells(&g.play_area_cells), 4);
}

#[test]
fn cells_before_the_one_above_stay_written() {
    // Cells listed bottom first: the two inside the well are written before
    // the third, above the well, ends the game.
    let mut piece = Piece::new(Kind::I);
    piece.offsets = [(0, 1), (0, 0), (0, -1), (1, -1)];
    let mut g = game_with([[false; 10]; 20], piece, Position::new(4, 0));
    g.update_play_area_cells();
    assert_eq!(g.state, State::GameOver);
    assert!(g.play_area_cells[1][4] && g.play_area_cells[0][4]);
    assert_eq!(count_cells(&g.play_area_cells), 2);
    assert_eq!(g.lines, 0);
    assert_eq!(g.points, 0);
}

#[test]
fn validate_new_position_checks_floor_and_blocks() {
    let mut cells = [[false; 10]; 20];
    cells[10][5] = true;
    let g = game_with(cells, Piece::new(Kind::I), Position::new(4, 5));
    assert!(g.validate_new_position(&Position::new(4, 9)));
    assert!(!g.validate_new_position(&Position::new(4, 10)));
    assert!(g.validate_new_position(&Position::new(4, -1)));
    assert!(!g.validate_new_position(&Position::new(4, 20)));
    assert_eq!(g.new_position(), Position::new(4, 6));
}

#[test]
fn shadow_falls_to_the_floor_or_a_block() {
    let mut cells = [[false; 10]; 20];
    let g = game_with(cells, Piece::new(Kind::I), Position::new(4, -1));
    assert_eq!(g.find_shadow_piece_origin(g.current_piece.origin), Position::new(4, 19));
    cells[12][6] = true;
    let g = game_with(cells, Piece::new(Kind::I), Position::new(4, -1));
    assert_eq!(g.find_shadow_piece_origin(g.current_piece.origin), Position::new(4, 11));
    // Taken cells in row 0 do not stop the shadow.
    let mut cells = [[false; 10]; 20];
    cells[0][4] = true;
    let g = game_with(cells, Piece::new(Kind::I), Position::new(4, -1));
    assert_eq!(g.find_shadow_piece_origin(g.current_piece.origin), Position::new(4, 19));
}

#[test]
fn sideways_move_stops_at_the_wall() {
    // I flat at origin (7, 5) covers columns 6 to 9.
    let mut g = game_with([[false; 10]; 20], Piece::new(Kind::I), Position::new(7, 5));
    g.test_piece.origin.x += 1;
    assert_eq!(g.validate_test_piece(false), None);
    g.test_piece.origin.x -= 2;
    assert_eq!(g.validate_test_piece(false), Some(Position::new(6, 5)));
}

#[test]
fn rotation_kicks_off_the_wall() {
    // T rotated counter-clockwise at the left wall: orientation 3 at x 0 has
    // a cell in column -1, the second test (+1, 0) moves it back in.
    let mut g = game_with([[false; 10]; 20], Piece::new(Kind::T), Position::new(0, 5));
    g.current_piece.offsets = get_offset(Kind::T, 1);
    g.current_piece.orientation_idx = 1;
    g.test_piece = TestPiece::new(&g.current_piece);
    g.test_piece.rotate_test_piece(Kind::T, 1, sketris::shape::Dir::ClockWise);
    // Orientation 2 at x 0 has cell (-1, 5): blocked; kick (+1, 0) fits.
    assert_eq!(g.validate_test_piece(true), Some(Position::new(1, 5)));
    // Without kicks the same trial is refused.
    assert_eq!(g.validate_test_piece(false), None);
}

#[test]
fn rotation_far_above_the_well_takes_the_first_test_that_fits() {
    // An I piece turned upright with its origin at x -2: the first two tests
    // put its cells beside the well, the third (+1, 0) brings them between
    // the walls, above the well.
    let mut g = game_with([[false; 10]; 20], Piece::new(Kind::I), Position::new(1, -5));
    g.test_piece.rotate_test_piece(Kind::I, 0, sketris::shape::Dir::ClockWise);
    g.test_piece.origin = Position::new(-2, -5);
    assert_eq!(g.validate_test_piece(true), Some(Position::new(-1, -5)));
}

#[test]
fn wall_kick_past_a_test_beside_the_well() {
    // J turned to orientation 1 at (9, 0): the first test puts a cell above
    // the well beside it; the second test, (8, 0), fits.
    let mut g = game_with([[false; 10]; 20], Piece::new(Kind::J), Position::new(8, 0));
    g.test_piece.rotate_test_piece(Kind::J, 0, sketris::shape::Dir::ClockWise);
    g.test_piece.origin = Position::new(9, 0);
    assert_eq!(g.validate_test_piece(true), Some(Position::new(8, 0)));
}

#[test]
fn rotation_with_no_fitting_test_is_refused() {
    // An O-shaped block of cells around an upright I leaves no test free.
    let mut cells = [[true; 10]; 20];
    for y in 0..20 {
        cells[y][0] = false;
    }
    let mut piece = Piece::new(Kind::I);
    piece.offsets = get_offset(Kind::I, 1);
    piece.orientation_idx = 1;
    let mut g = game_with(cells, piece, Position::new(-1, 10));
    assert_eq!(g.validate_test_piece(false), Some(Position::new(-1, 10)));
    g.test_piece.rotate_test_piece(Kind::I, 1, sketris::shape::Dir::ClockWise);
    assert_eq!(g.validate_test_piece(true), None);
}

#[test]
fn key_release_does_not_count_against_lock_down() {
    let mut g = game_with([[false; 10]; 20], Piece::new(Kind::O), Position::new(4, 19));
    g.update(500 * MS, 500 * MS);
    assert_eq!(g.lock_down_counter, 1);
    g.handle_key_event(release(KeyCode::Down), 700 * MS);
    assert_eq!(g.lock_down_counter, 1);
    assert_eq!(g.last_lock_down, 500 * MS);
    g.handle_key_event(press(KeyCode::Char('x')), 800 * MS);
    assert_eq!(g.lock_down_counter, 2);
    assert_eq!(g.last_lock_down, 800 * MS);
}

#[test]
fn hard_drop_from_lock_down_starts_the_next_piece_afresh() {
    let mut g = game_with([[false; 10]; 20], Piece::new(Kind::O), Position::new(4, 19));
    g.update(500 * MS, 500 * MS);
    assert_eq!(g.lock_down_counter, 1);
    g.hard_drop = true;
    g.update(600 * MS, 600 * MS);
    assert_eq!(g.lock_down_counter, 0);
    assert_eq!(g.current_piece.origin, Position::new(4, -1));
    // Long after the old wait would have run out the new piece still falls.
    g.update(1100 * MS, 1100 * MS);
    assert_eq!(g.current_piece.origin, Position::new(4, 0));
    assert_eq!(g.state, State::Playing);
}

#[test]
fn quit_keys() {
    let mut g = Sketris::new(0);
    g.handle_key_event(press(KeyCode::Char('q')), 0);
    assert!(g.exit);
    let mut g = Sketris::new(0);
    g.handle_key_event(press(KeyCode::Esc), 0);
    assert!(g.exit);
    let mut g = Sketris::new(0);
    g.handle_key_event(press(KeyCode::Char('c')), 0);
    assert!(!g.exit);
    g.handle_key_event(KeyEvent { code: KeyCode::Char('c'), kind: KeyKind::Press, control: true }, 0);
    assert!(g.exit);
}

#[test]
fn shift_keys_move_while_held() {
    let mut g = game_with([[false; 10]; 20], Piece::new(Kind::O), Position::new(4, 5));
    g.handle_key_event(press(KeyCode::Char('l')), 0);
    assert_eq!(g.horizontal_move, 1);
    assert_eq!(g.current_piece.origin, Position::new(5, 5));
    // Any further event shifts again while the key is held.
    g.handle_key_event(press(KeyCode::Other), 0);
    assert_eq!(g.current_piece.origin, Position::new(6, 5));
    g.handle_key_event(release(KeyCode::Right), 0);
    assert_eq!(g.horizontal_move, 0);
    assert_eq!(g.current_piece.origin, Position::new(6, 5));
    g.handle_key_event(press(KeyCode::Left), 0);
    assert_eq!(g.horizontal_move, -1);
    assert_eq!(g.current_piece.origin, Position::new(5, 5));
}

#[test]
fn rotation_once_per_press() {
    let mut g = game_with([[false; 10]; 20], Piece::new(Kind::T), Position::new(4, 5));
    g.handle_key_event(press(KeyCode::Char('x')), 0);
    assert!(g.rotation_pressed);
    assert_eq!(g.current_piece.orientation_idx, 1);
    assert_eq!(g.current_piece.offsets, get_offset(Kind::T, 1));
    g.handle_key_event(press(KeyCode::Char('x')), 0);
    assert_eq!(g.current_piece.orientation_idx, 1);
    g.handle_key_event(release(KeyCode::Char('x')), 0);
    assert!(!g.rotation_pressed);
    g.handle_key_event(press(KeyCode::Char('z')), 0);
    assert_eq!(g.current_piece.orientation_idx, 0);
    assert_eq!(g.test_piece.wallkicks, wall_kicks(1, 1));
}

#[test]
fn drop_keys_set_flags() {
    let mut g = Sketris::new(0);
    g.handle_key_event(press(KeyCode::Char('j')), 0);
    assert!(g.soft_drop);
    g.handle_key_event(release(KeyCode::Down), 0);
    assert!(!g.soft_drop);
    g.handle_key_event(press(KeyCode::Char(' ')), 0);
    assert!(g.hard_drop);
}

#[test]
fn up_key_lifts_the_piece() {
    let mut g = game_with([[false; 10]; 20], Piece::new(Kind::O), Position::new(4, 5));
    g.handle_key_event(press(KeyCode::Up), 0);
    assert_eq!(g.current_piece.origin, Position::new(4, 4));
    g.handle_key_event(KeyEvent { code: KeyCode::Char('k'), kind: KeyKind::Repeat, control: false }, 0);
    assert_eq!(g.current_piece.origin, Position::new(4, 3));
}

#[test]
fn gravity_moves_one_row_per_interval() {
    let mut g = game_with([[false; 10]; 20], Piece::new(Kind::O), Position::new(4, 5));
    g.update(499 * MS, 499 * MS);
    assert_eq!(g.current_piece.origin, Position::new(4, 5));
    g.update(500 * MS, 500 * MS);
    assert_eq!(g.current_piece.origin, Position::new(4, 6));
    assert_eq!(g.last_gravity, 500 * MS);
    g.soft_drop = true;
    g.update(550 * MS, 550 * MS);
    assert_eq!(g.current_piece.origin, Position::new(4, 7));
    assert_eq!(SOFT_DROP_INTERVAL_NS, 50 * MS);
}

#[test]
fn hard_drop_locks_at_the_bottom() {
    let mut g = game_with([[false; 10]; 20], Piece::new(Kind::O), Position::new(4, 5));
    g.hard_drop = true;
    g.update(10, 20);
    assert!(!g.hard_drop);
    assert!(g.play_area_cells[19][4] && g.play_area_cells[19][5]);
    assert!(g.play_area_cells[18][4] && g.play_area_cells[18][5]);
    assert_eq!(count_cells(&g.play_area_cells), 4);
    // The preview came into play and a new preview was dealt.
    assert_eq!(g.current_piece.shape, Kind::O);
    assert_eq!(g.current_piece.origin, Position::new(4, -1));
    assert!(g.next_piece.is_some());
    assert_eq!(g.last_gravity, 10);
    assert_eq!(g.test_piece.origin, g.current_piece.origin);
}

#[test]
fn landed_piece_waits_then_locks() {
    // O resting on the floor: origin y 19 puts its cells in rows 18 and 19.
    let mut g = game_with([[false; 10]; 20], Piece::new(Kind::O), Position::new(4, 19));
    g.update(500 * MS, 501 * MS);
    assert_eq!(g.lock_down_counter, 1);
    assert_eq!(g.last_lock_down, 501 * MS);
    assert_eq!(count_cells(&g.play_area_cells), 0);
    g.update(1000 * MS, 1000 * MS);
    assert_eq!(count_cells(&g.play_area_cells), 0);
    g.update(1001 * MS, 1001 * MS);
    assert_eq!(count_cells(&g.play_area_cells), 4);
    assert_eq!(g.lock_down_counter, 0);
    assert_eq!(g.current_piece.origin, Position::new(4, -1));
}

#[test]
fn moves_reset_the_wait_until_fifteen() {
    let mut g = game_with([[false; 10]; 20], Piece::new(Kind::O), Position::new(4, 19));
    g.update(500 * MS, 500 * MS);
    assert_eq!(g.lock_down_counter, 1);
    g.handle_key_event(press(KeyCode::Left), 700 * MS);
    assert_eq!(g.lock_down_counter, 2);
    assert_eq!(g.last_lock_down, 700 * MS);
    g.update(900 * MS, 900 * MS);
    assert_eq!(count_cells(&g.play_area_cells), 0);
    for i in 0..14u64 {
        let code = if i % 2 == 0 { KeyCode::Right } else { KeyCode::Left };
        g.handle_key_event(release(code), 900 * MS);
        g.handle_key_event(press(code), 900 * MS);
    }
    assert!(g.lock_down_counter > 15);
    g.update(901 * MS, 901 * MS);
    assert_eq!(count_cells(&g.play_area_cells), 4);
}

#[test]
fn nothing_happens_after_game_over() {
    let mut g = game_with([[false; 10]; 20], Piece::new(Kind::O), Position::new(4, 5));
    g.state = State::GameOver;
    g.hard_drop = true;
    g.update(10_000 * MS, 0);
    assert!(g.hard_drop);
    assert_eq!(g.current_piece.origin, Position::new(4, 5));
    assert_eq!(count_cells(&g.play_area_cells), 0);
}

#[test]
fn full_line_by_hard_drop_scores() {
    let mut g = game_with(well_with_gap(19), Piece::new(Kind::I), Position::new(4, -1));
    g.hard_drop = true;
    g.update(1, 1);
    assert_eq!(g.lines, 1);
    assert_eq!(g.points, 40);
    assert_eq!(count_cells(&g.play_area_cells), 0);
}

#[test]
fn lock_brings_preview_into_play_and_deals_the_next() {
    let mut g = game_with([[false; 10]; 20], Piece::new(Kind::O), Position::new(4, 5));
    g.bag = Bag::from_order([Kind::T, Kind::O, Kind::Z, Kind::S, Kind::J, Kind::L, Kind::I]);
    g.hard_drop = true;
    g.update(1, 1);
    assert_eq!(g.current_piece.shape, Kind::O);
    assert_eq!(g.next_piece.unwrap().shape, Kind::T);
    g.hard_drop = true;
    g.update(2, 2);
    assert_eq!(g.current_piece.shape, Kind::T);
    assert_eq!(g.next_piece.unwrap().shape, Kind::O);
    assert_eq!(count_cells(&g.play_area_cells), 8);
}

#[test]
fn shadow_marks_where_a_hard_drop_locks() {
    let mut cells = [[false; 10]; 20];
    cells[12][6] = true;
    cells[15][3] = true;
    let mut g = game_with(cells, Piece::new(Kind::T), Position::new(5, 2));
    let shadow = g.find_shadow_piece_origin(g.current_piece.origin);
    g.hard_drop = true;
    g.update(1, 1);
    // T at the shadow has cells (5, y-1), (4, y), (5, y), (6, y).
    assert!(g.play_area_cells[shadow.y as usize][4]);
    assert!(g.play_area_cells[shadow.y as usize][5]);
    assert!(g.play_area_cells[shadow.y as usize][6]);
    assert!(g.play_area_cells[(shadow.y - 1) as usize][5]);
    assert_eq!(shadow, Position::new(5, 11));
}
