//! The game state and its rules: gravity, locking, clearing rows, scoring,
//! and what each key does.

use vstd::prelude::*;
use crate::bag::Bag;
use crate::piece::{Piece, TestPiece};
use crate::input::{horizontal_after, key_action, KeyAction, KeyCode, KeyEvent, KeyKind};
use crate::shape::{
    kicks_bounded, lemma_kicks_bounded, lemma_offsets_bounded, offsets_bounded, offsets_of, Dir,
    Kind, Position, State,
};
use crate::well::{
    cell_x, cell_y, cleared_lines, cleared_prefix, collapse, fill_cells, first_above, fits,
    full_rows, in_well, lemma_collapse_by_shifts, lemma_collapse_done, line_score,
    lock_ends_game, locked_rows, open_cell, placed_rows, remove_rows, row_full, rows_of,
    shifted, top_row, empty_row, between_walls, below, shadow, shadow_stops, landing,
    kicked, kick_trials, lemma_fits_in_well, lemma_in_well_origin,
    lemma_kick_trials_some, lemma_below_between_walls, scan_in_bounds, lemma_walls_scan_in_bounds, lockable,
    lemma_shadow_is_landing,
    lemma_full_rows_in_range, lemma_first_above_from, lemma_collapse_leaves_no_full_row,
};

verus! {

/// A fresh piece lies between the walls, at most two rows into the well.
pub proof fn lemma_fresh_in_well(piece: Piece)
    requires
        piece.is_fresh(piece.shape),
    ensures
        in_well(piece.offsets, piece.origin),
        piece.origin.y >= i32::MIN + 8,
{
    lemma_offsets_bounded(piece.shape, 0);
    assert forall|i: int| 0 <= i < 4 implies 0 <= #[trigger] cell_x(piece.offsets, piece.origin, i)
        < 10 && i32::MIN <= cell_y(piece.offsets, piece.origin, i) <= 19 by {
        assert(-1 <= piece.offsets[i].0 <= 2);
    }
}

/// Whether all ten cells of a row are taken.
fn row_is_full(row: &[bool; 10]) -> (full: bool)
    ensures
        full == row_full(row@),
{
    let mut x: usize = 0;
    while x < 10
        invariant
            x <= 10,
            forall|k: int| 0 <= k < x ==> row@[k],
        decreases 10 - x,
    {
        if !row[x] {
            return false;
        }
        x += 1;
    }
    true
}

/// Moves the rows from 1 to `line` down by one, the lowest first.
fn shift_down(cells: &mut [[bool; 10]; 20], line: usize)
    requires
        line < 20,
    ensures
        rows_of(*final(cells)) == shifted(rows_of(*old(cells)), line as int),
{
    let ghost start = rows_of(*cells);
    let mut y = line;
    while y >= 1
        invariant
            y <= line < 20,
            rows_of(*cells).len() == 20,
            start.len() == 20,
            forall|z: int|
                0 <= z < 20 ==> #[trigger] rows_of(*cells)[z] == (if y < z <= line {
                    start[z - 1]
                } else {
                    start[z]
                }),
        decreases y,
    {
        let ghost before = rows_of(*cells);
        cells[y] = cells[y - 1];
        assert(rows_of(*cells) =~= before.update(y as int, before[y - 1]));
        y -= 1;
    }
    assert(rows_of(*cells) =~= shifted(start, line as int));
}


/// The indices of a list of rows, as integers.
pub open spec fn as_ints(v: Seq<usize>) -> Seq<int> {
    v.map_values(|u: usize| u as int)
}

/// Empties every full row and lists the full rows, top to bottom.
fn clear_full_rows(cells: &mut [[bool; 10]; 20]) -> (removed: Vec<usize>)
    ensures
        rows_of(*final(cells)) == cleared_prefix(rows_of(*old(cells)), 20),
        as_ints(removed@) == full_rows(rows_of(*old(cells)), 20),
{
    let ghost p = rows_of(*cells);
    let mut removed: Vec<usize> = Vec::with_capacity(4);
    let mut y: usize = 0;
    assert(rows_of(*cells) =~= cleared_prefix(p, 0));
    assert(as_ints(removed@) =~= full_rows(p, 0));
    while y < 20
        invariant
            y <= 20,
            p.len() == 20,
            rows_of(*cells) == cleared_prefix(p, y as int),
            as_ints(removed@) == full_rows(p, y as int),
        decreases 20 - y,
    {
        assert(rows_of(*cells)[y as int] == cleared_prefix(p, y as int)[y as int]);
        assert(rows_of(*cells)[y as int] == cells@[y as int]@);
        let full = row_is_full(&cells[y]);
        assert(cells@[y as int]@ == p[y as int]);
        if full {
            let ghost before = rows_of(*cells);
            cells[y] = [false; 10];
            assert(cells@[y as int]@ =~= empty_row());
            assert(rows_of(*cells) =~= before.update(y as int, empty_row()));
            assert(rows_of(*cells) =~= cleared_prefix(p, y + 1));
            removed.push(y);
            assert(as_ints(removed@) =~= full_rows(p, y + 1));
        } else {
            assert(rows_of(*cells) =~= cleared_prefix(p, y + 1));
        }
        y += 1;
    }
    removed
}

/// Shifts the well down at each of the emptied full rows, top to bottom.
fn collapse_rows(cells: &mut [[bool; 10]; 20], removed: &Vec<usize>, Ghost(p): Ghost<Seq<Seq<bool>>>)
    requires
        p.len() == 20,
        rows_of(*old(cells)) == cleared_prefix(p, 20),
        as_ints(removed@) == full_rows(p, 20),
    ensures
        rows_of(*final(cells)) == collapse(p),
{
    let r = Ghost(full_rows(p, 20));
    assert(r@.take(0) =~= Seq::<int>::empty());
    assert(Seq::new(0, |i: int| top_row(p)) + remove_rows(cleared_prefix(p, 20), r@.take(0))
        =~= cleared_prefix(p, 20));
    let mut j: usize = 0;
    while j < removed.len()
        invariant
            j <= removed.len(),
            p.len() == 20,
            r@ == full_rows(p, 20),
            as_ints(removed@) == r@,
            rows_of(*cells) == Seq::new(j as nat, |i: int| top_row(p)) + remove_rows(
                cleared_prefix(p, 20),
                r@.take(j as int),
            ),
        decreases removed.len() - j,
    {
        let line = removed[j];
        assert(r@[j as int] == line as int);
        proof {
            lemma_collapse_by_shifts(p, j as int);
        }
        assert(line < 20) by {
            lemma_full_rows_in_range(p, j as int);
        }
        shift_down(cells, line);
        j += 1;
    }
    proof {
        lemma_collapse_done(p);
    }
}

/// Where a move or rotation of the trial piece ends up, if anywhere. A
/// shift, or any turn of an O piece, is taken where the trial piece fits as
/// it stands; another turn is taken at the first of its five wall-kick
/// tests that fits.
pub open spec fn trial_outcome(
    rows: Seq<Seq<bool>>,
    test: TestPiece,
    rotating: bool,
    shape: Kind,
) -> Option<Position> {
    if !rotating || shape == Kind::O {
        if fits(rows, test.offsets, test.origin) {
            Some(test.origin)
        } else {
            None
        }
    } else {
        kick_trials(rows, test.offsets, test.origin, test.wallkicks, 0)
    }
}

/// Both coordinates lie at least `margin` away from the ends of `i32`.
pub open spec fn has_margin(p: Position, margin: int) -> bool {
    &&& i32::MIN + margin <= p.x <= i32::MAX - margin
    &&& i32::MIN + margin <= p.y <= i32::MAX - margin
}

/// Far enough from the ends of `i32` for every step of a key event.
pub open spec fn roomy(p: Position) -> bool {
    has_margin(p, 5)
}

/// The trial piece after the key itself acts on it, before the sideways
/// move in force shifts it: turned for a rotation, lifted for a nudge up.
pub open spec fn turned_trial(s: Sketris, action: KeyAction) -> TestPiece {
    let t = s.test_piece;
    match action {
        KeyAction::Rotate(d) => t.rotated(s.current_piece.shape, s.current_piece.orientation_idx, d),
        KeyAction::NudgeUp => TestPiece {
            origin: Position { x: t.origin.x, y: (t.origin.y - 1) as i32 },
            ..t
        },
        _ => t,
    }
}

/// The trial piece after a key event, before it is tried: turned for a
/// rotation, lifted a row for a nudge up, then shifted sideways by the
/// sideways move in force.
pub open spec fn trial_after(s: Sketris, key: KeyEvent) -> TestPiece {
    let action = key_action(key, s.rotation_pressed);
    let turned = turned_trial(s, action);
    let shift = horizontal_after(s.horizontal_move, action);
    TestPiece {
        origin: Position { x: (turned.origin.x + shift) as i32, y: turned.origin.y },
        ..turned
    }
}

/// The key event moves or turns the piece in play: its trial is accepted
/// at a place or in an orientation other than the piece's own.
pub open spec fn moves_piece(s: Sketris, key: KeyEvent) -> bool {
    let t = trial_after(s, key);
    match trial_outcome(
        rows_of(s.play_area_cells),
        t,
        key_action(key, s.rotation_pressed) is Rotate,
        s.current_piece.shape,
    ) {
        Some(p) => p != s.current_piece.origin || t.orientation_idx != s.current_piece.orientation_idx,
        None => false,
    }
}

/// Nanoseconds between steps of gravity when the game starts.
pub const FALL_INTERVAL_NS: u64 = 500_000_000;

/// Nanoseconds between steps of gravity while a soft drop is held.
pub const SOFT_DROP_INTERVAL_NS: u64 = 50_000_000;

/// Nanoseconds a landed piece waits before it locks.
pub const LOCK_DOWN_NS: u64 = 500_000_000;

/// After this many moves and rotations while landed, a piece locks at once.
pub const LOCK_DOWN_MOVES: u8 = 15;

/// Time passed from `since` to `now`; none if `now` is earlier.
pub open spec fn elapsed(now: u64, since: u64) -> int {
    if now >= since {
        now - since
    } else {
        0
    }
}

/// A landed piece has waited long enough, or been moved too often, to lock.
pub open spec fn lock_timed_out(s: Sketris, now: u64) -> bool {
    &&& s.lock_down_counter > 0
    &&& (elapsed(now, s.last_lock_down) >= s.lock_down_timer || s.lock_down_counter
        > LOCK_DOWN_MOVES)
}

/// The piece in play locks in this update.
pub open spec fn locks_now(s: Sketris, now: u64) -> bool {
    s.hard_drop || lock_timed_out(s, now)
}

/// Where the piece in play locks: at its landing place after a hard drop,
/// where it is otherwise.
pub open spec fn lock_origin(s: Sketris) -> Position {
    if s.hard_drop {
        landing(rows_of(s.play_area_cells), s.current_piece.offsets, s.current_piece.origin)
    } else {
        s.current_piece.origin
    }
}

/// Gravity is due: the interval in force (shorter while a soft drop is held)
/// has passed since gravity last acted.
pub open spec fn gravity_due(s: Sketris, now: u64) -> bool {
    elapsed(now, s.last_gravity) >= (if s.soft_drop {
        SOFT_DROP_INTERVAL_NS
    } else {
        s.gravity_interval
    })
}

pub struct Sketris {
    pub exit: bool,
    pub play_area_cells: [[bool; 10]; 20],
    pub bag: Bag,
    pub current_piece: Piece,
    pub test_piece: TestPiece,
    pub next_piece: Option<Piece>,
    /// Nanoseconds between two steps of gravity.
    pub gravity_interval: u64,
    /// When gravity last acted, in nanoseconds on the caller's clock.
    pub last_gravity: u64,
    pub soft_drop: bool,
    pub hard_drop: bool,
    pub rotation_pressed: bool,
    pub horizontal_move: i32,
    /// Nanoseconds a landed piece waits before it locks.
    pub lock_down_timer: u64,
    /// Zero while the piece falls freely; once it has landed, one more than
    /// the moves and rotations made since.
    pub lock_down_counter: u8,
    /// When the lock-down wait last started, in nanoseconds.
    pub last_lock_down: u64,
    pub lines: usize,
    pub points: usize,
    pub state: State,
}

impl Sketris {
    /// The piece in play has cells and tests that agree with its shape and
    /// lies between the walls above the floor; the preview holds a fresh
    /// piece; the bag is well formed.
    pub open spec fn wf(&self) -> bool {
        &&& self.bag.wf()
        &&& self.current_piece.wf()
        &&& in_well(self.current_piece.offsets, self.current_piece.origin)
        &&& self.current_piece.origin.y >= i32::MIN + 2
        &&& self.next_piece matches Some(p) && p.is_fresh(p.shape)
        &&& self.test_piece.orientation_idx < 4
        &&& self.test_piece.offsets == offsets_of(
            self.current_piece.shape,
            self.test_piece.orientation_idx as int,
        )
        &&& kicks_bounded(self.test_piece.wallkicks)
        &&& -1 <= self.horizontal_move <= 1
    }

    /// Sets the flags a key event asks for and turns or lifts the trial piece.
    fn apply_key(&mut self, key: KeyEvent) -> (is_rotating: bool)
        requires
            old(self).wf(),
            roomy(old(self).test_piece.origin),
        ensures
            is_rotating == key_action(key, old(self).rotation_pressed) is Rotate,
            final(self).test_piece == turned_trial(*old(self), key_action(key, old(self).rotation_pressed)),
            final(self).exit == (old(self).exit || key_action(key, old(self).rotation_pressed)
                == KeyAction::Quit),
            final(self).soft_drop == (if key_action(key, old(self).rotation_pressed)
                == KeyAction::StartSoftDrop {
                true
            } else if key_action(key, old(self).rotation_pressed) == KeyAction::StopSoftDrop {
                false
            } else {
                old(self).soft_drop
            }),
            final(self).hard_drop == (old(self).hard_drop || key_action(
                key,
                old(self).rotation_pressed,
            ) == KeyAction::HardDrop),
            final(self).rotation_pressed == (if key_action(key, old(self).rotation_pressed) is Rotate {
                true
            } else if key_action(key, old(self).rotation_pressed) == KeyAction::ReleaseRotation {
                false
            } else {
                old(self).rotation_pressed
            }),
            final(self).horizontal_move == horizontal_after(
                old(self).horizontal_move,
                key_action(key, old(self).rotation_pressed),
            ),
            *final(self) == (Sketris {
                exit: final(self).exit,
                soft_drop: final(self).soft_drop,
                hard_drop: final(self).hard_drop,
                rotation_pressed: final(self).rotation_pressed,
                horizontal_move: final(self).horizontal_move,
                test_piece: final(self).test_piece,
                ..*old(self)
            }),
    {
        let mut is_rotating = false;
        match key.kind {
            KeyKind::Press => {
                match key.code {
                    KeyCode::Char('q') | KeyCode::Esc => self.exit = true,
                    KeyCode::Char('c') if key.control => self.exit = true,
                    KeyCode::Char('j') | KeyCode::Down => self.soft_drop = true,
                    KeyCode::Char(' ') => self.hard_drop = true,
                    KeyCode::Char('z') if !self.rotation_pressed => {
                        self.test_piece.rotate_test_piece(
                            self.current_piece.shape,
                            self.current_piece.orientation_idx,
                            Dir::CounterClockWise,
                        );
                        self.rotation_pressed = true;
                        is_rotating = true;
                    },
                    KeyCode::Char('x') if !self.rotation_pressed => {
                        self.test_piece.rotate_test_piece(
                            self.current_piece.shape,
                            self.current_piece.orientation_idx,
                            Dir::ClockWise,
                        );
                        self.rotation_pressed = true;
                        is_rotating = true;
                    },
                    KeyCode::Char('l') | KeyCode::Right => self.horizontal_move = 1,
                    KeyCode::Char('h') | KeyCode::Left => self.horizontal_move = -1,
                    KeyCode::Char('k') | KeyCode::Up => self.test_piece.origin.y += -1,
                    _ => {},
                }
            },
            KeyKind::Release => match key.code {
                KeyCode::Down | KeyCode::Char('j') => {
                    self.soft_drop = false;
                },
                KeyCode::Char('z') => self.rotation_pressed = false,
                KeyCode::Char('x') => self.rotation_pressed = false,
                KeyCode::Char('l') | KeyCode::Right => self.horizontal_move = 0,
                KeyCode::Char('h') | KeyCode::Left => self.horizontal_move = 0,
                _ => {},
            },
            KeyKind::Repeat => match key.code {
                KeyCode::Char('k') | KeyCode::Up => self.test_piece.origin.y += -1,
                _ => {},
            },
        }
        is_rotating
    }

    /// A new game at time `now`: an empty well, the first two pieces of a
    /// freshly shuffled bag in play and in the preview.
    pub fn new(now: u64) -> (game: Self)
        ensures
            game.wf(),
            rows_of(game.play_area_cells) == Seq::new(20, |y: int| empty_row()),
            game.state == State::Playing,
            !game.exit && !game.soft_drop && !game.hard_drop && !game.rotation_pressed,
            game.horizontal_move == 0,
            game.gravity_interval == FALL_INTERVAL_NS,
            game.lock_down_timer == LOCK_DOWN_NS,
            game.last_gravity == now,
            game.last_lock_down == now,
            game.lock_down_counter == 0,
            game.lines == 0,
            game.points == 0,
            game.bag.position() == 2,
            game.current_piece.is_fresh(game.bag.order()[0]),
            game.next_piece matches Some(p) && p.is_fresh(game.bag.order()[1]),
            game.test_piece == TestPiece::following(game.current_piece),
    {
        let mut bag = Bag::new();
        let current_piece = bag.piece_owned().unwrap();
        let next_piece = bag.piece_owned();
        let test_piece = TestPiece::new(&current_piece);
        proof {
            lemma_fresh_in_well(current_piece);
        }
        let game = Self {
            exit: false,
            play_area_cells: [[false; 10]; 20],
            bag,
            current_piece,
            next_piece,
            test_piece,
            gravity_interval: FALL_INTERVAL_NS,
            last_gravity: now,
            soft_drop: false,
            hard_drop: false,
            rotation_pressed: false,
            horizontal_move: 0,
            lock_down_timer: LOCK_DOWN_NS,
            lock_down_counter: 0,
            last_lock_down: now,
            lines: 0,
            points: 0,
            state: State::Playing,
        };
        assert(rows_of(game.play_area_cells) =~= Seq::new(20, |y: int| empty_row())) by {
            assert forall|y: int| 0 <= y < 20 implies #[trigger] rows_of(game.play_area_cells)[y]
                =~= empty_row() by {
                assert(game.play_area_cells@[y]@[0] == false);
            }
        }
        game
    }

    /// One tick of the game at time `now` (`clock` is the time read when a
    /// lock-down wait starts). A hard drop moves the piece to its landing
    /// place and locks it; otherwise a landed piece locks once its wait is
    /// over or it has moved too often, and else gravity moves it a row down
    /// when due, or starts its lock-down wait where it cannot fall. A locked
    /// piece is written into the well, the preview comes into play with no
    /// lock-down wait pending, and the bag deals the next preview. Nothing
    /// happens once the game is over.
    pub fn update(&mut self, now: u64, clock: u64)
        requires
            old(self).wf(),
            old(self).state == State::Playing && locks_now(*old(self), now) ==> {
                let rows = rows_of(old(self).play_area_cells);
                let offsets = old(self).current_piece.offsets;
                let at = lock_origin(*old(self));
                &&& old(self).lines + cleared_lines(rows, offsets, at) <= usize::MAX
                &&& old(self).points + line_score(cleared_lines(rows, offsets, at)) <= usize::MAX
            },
        ensures
            final(self).wf(),
            old(self).state == State::GameOver ==> *final(self) == *old(self),
            // Gravity is timed from its own last step: before the interval in
            // force (50 ms while a soft drop is held) has passed since then, a
            // tick that does not lock leaves the piece and that time alone.
            old(self).state == State::Playing && !old(self).hard_drop && !(old(self).lock_down_counter
                > 0 && ((now >= old(self).last_lock_down && now - old(self).last_lock_down
                >= old(self).lock_down_timer) || (now < old(self).last_lock_down
                && old(self).lock_down_timer == 0) || old(self).lock_down_counter > 15))
                && (if now >= old(self).last_gravity {
                now - old(self).last_gravity
            } else {
                0
            }) < (if old(self).soft_drop {
                50_000_000
            } else {
                old(self).gravity_interval
            }) ==> final(self).current_piece == old(self).current_piece
                && final(self).last_gravity == old(self).last_gravity,
            old(self).state == State::Playing ==> {
                &&& final(self).test_piece == TestPiece::following(final(self).current_piece)
                &&& *final(self) == (Sketris {
                    play_area_cells: final(self).play_area_cells,
                    bag: final(self).bag,
                    current_piece: final(self).current_piece,
                    test_piece: final(self).test_piece,
                    next_piece: final(self).next_piece,
                    last_gravity: final(self).last_gravity,
                    hard_drop: final(self).hard_drop,
                    lock_down_counter: final(self).lock_down_counter,
                    last_lock_down: final(self).last_lock_down,
                    lines: final(self).lines,
                    points: final(self).points,
                    state: final(self).state,
                    ..*old(self)
                })
            },
            old(self).state == State::Playing && locks_now(*old(self), now) ==> {
                let rows = rows_of(old(self).play_area_cells);
                let offsets = old(self).current_piece.offsets;
                let at = lock_origin(*old(self));
                &&& rows_of(final(self).play_area_cells) == locked_rows(rows, offsets, at)
                &&& final(self).lines == old(self).lines + cleared_lines(rows, offsets, at)
                &&& final(self).points == old(self).points + line_score(
                    cleared_lines(rows, offsets, at),
                )
                &&& final(self).state == (if lock_ends_game(offsets, at) {
                    State::GameOver
                } else {
                    State::Playing
                })
                &&& old(self).next_piece == Some(final(self).current_piece)
                &&& final(self).next_piece matches Some(p) && p.is_fresh(old(self).bag.upcoming())
                &&& old(self).bag.deals(final(self).bag)
                &&& !final(self).hard_drop
                &&& final(self).last_gravity == (if old(self).hard_drop {
                    now
                } else {
                    old(self).last_gravity
                })
                &&& final(self).lock_down_counter == 0
                &&& final(self).last_lock_down == old(self).last_lock_down
            },
            old(self).state == State::Playing && !locks_now(*old(self), now) ==> {
                let rows = rows_of(old(self).play_area_cells);
                let offsets = old(self).current_piece.offsets;
                let down = below(old(self).current_piece.origin);
                &&& final(self).play_area_cells == old(self).play_area_cells
                &&& final(self).bag == old(self).bag
                &&& final(self).next_piece == old(self).next_piece
                &&& final(self).lines == old(self).lines
                &&& final(self).points == old(self).points
                &&& final(self).state == old(self).state
                &&& final(self).hard_drop == old(self).hard_drop
                &&& if !gravity_due(*old(self), now) {
                    &&& final(self).current_piece == old(self).current_piece
                    &&& final(self).lock_down_counter == old(self).lock_down_counter
                    &&& final(self).last_lock_down == old(self).last_lock_down
                    &&& final(self).last_gravity == old(self).last_gravity
                } else if fits(rows, offsets, down) {
                    &&& final(self).current_piece == (Piece { origin: down, ..old(self).current_piece })
                    &&& final(self).lock_down_counter == 0
                    &&& final(self).last_lock_down == old(self).last_lock_down
                    &&& final(self).last_gravity == now
                } else {
                    &&& final(self).current_piece == old(self).current_piece
                    &&& final(self).lock_down_counter == (if old(self).lock_down_counter == 0 {
                        1
                    } else {
                        old(self).lock_down_counter
                    })
                    &&& final(self).last_lock_down == (if old(self).lock_down_counter == 0 {
                        clock
                    } else {
                        old(self).last_lock_down
                    })
                    &&& final(self).last_gravity == now
                }
            },
    {
        let mut spawn_new_piece = false;
        if let State::Playing = self.state {
            let ghost rows = rows_of(self.play_area_cells);
            let ghost offsets = self.current_piece.offsets;
            proof {
                lemma_offsets_bounded(self.current_piece.shape, self.current_piece.orientation_idx as int);
                lemma_in_well_origin(offsets, self.current_piece.origin);
            }
            if self.hard_drop {
                let ghost start = self.current_piece.origin;
                let mut new_origin = self.new_position();
                proof {
                    lemma_below_between_walls(offsets, self.current_piece.origin);
                    lemma_walls_scan_in_bounds(rows, offsets, below(self.current_piece.origin), 0);
                }
                while self.validate_new_position(&new_origin)
                    invariant
                        rows == rows_of(self.play_area_cells),
                        offsets == self.current_piece.offsets,
                        offsets_bounded(offsets),
                        self.wf(),
                        new_origin == below(self.current_piece.origin),
                        self.current_piece.origin.y <= 20,
                        between_walls(offsets, new_origin),
                        scan_in_bounds(rows, offsets, new_origin, 0),
                        landing(rows, offsets, self.current_piece.origin) == landing(rows, offsets, start),
                        *self == (Sketris { current_piece: self.current_piece, ..*old(self) }),
                        self.current_piece == (Piece { origin: self.current_piece.origin, ..old(self).current_piece }),
                    decreases 21 - self.current_piece.origin.y,
                {
                    proof {
                        lemma_fits_in_well(rows, offsets, new_origin);
                        lemma_in_well_origin(offsets, new_origin);
                    }
                    self.current_piece.origin = new_origin;
                    new_origin = self.new_position();
                    proof {
                        lemma_below_between_walls(offsets, self.current_piece.origin);
                        lemma_walls_scan_in_bounds(rows, offsets, below(self.current_piece.origin), 0);
                    }
                }
                assert(landing(rows, offsets, self.current_piece.origin) == self.current_piece.origin);
                self.hard_drop = false;
                self.last_gravity = now;
                // The next piece starts without a lock-down wait.
                self.lock_down_counter = 0;
                spawn_new_piece = true;
            } else {
                let gravity_interval = if self.soft_drop {
                    SOFT_DROP_INTERVAL_NS
                } else {
                    self.gravity_interval
                };
                if self.lock_down_counter > 0 {
                    let lock_down_timer = now.saturating_sub(self.last_lock_down);
                    if lock_down_timer >= self.lock_down_timer || self.lock_down_counter > LOCK_DOWN_MOVES {
                        spawn_new_piece = true;
                        self.lock_down_counter = 0;
                    }
                }
                if !spawn_new_piece {
                    let elapsed = now.saturating_sub(self.last_gravity);
                    if elapsed >= gravity_interval {
                        let new_origin = self.new_position();
                        proof {
                            lemma_below_between_walls(offsets, self.current_piece.origin);
                            lemma_walls_scan_in_bounds(rows, offsets, below(self.current_piece.origin), 0);
                        }
                        if self.validate_new_position(&new_origin) {
                            proof {
                                lemma_fits_in_well(rows, offsets, new_origin);
                            }
                            self.current_piece.origin = new_origin;
                            self.lock_down_counter = 0;
                        } else if self.lock_down_counter == 0 {
                            self.lock_down_counter = 1;
                            self.last_lock_down = clock;
                        }
                        self.last_gravity = now;
                    }
                }
            }
            if spawn_new_piece {
                self.update_play_area_cells();
                self.current_piece = self.next_piece.take().unwrap();
                self.next_piece = self.bag.piece_owned();
                proof {
                    lemma_fresh_in_well(self.current_piece);
                }
            }
            self.test_piece = TestPiece::new(&self.current_piece);
            proof {
                lemma_kicks_bounded(0, 0);
            }
        }
    }

    /// Applies a key event: sets the flags it asks for, turns, lifts and
    /// shifts the trial piece, and hands the result to the piece in play
    /// where it is accepted. An accepted move or turn of a piece that waits
    /// to lock counts against the lock-down and restarts its wait at `clock`;
    /// other key events leave the wait alone.
    pub fn handle_key_event(&mut self, key: KeyEvent, clock: u64)
        requires
            old(self).wf(),
            roomy(old(self).test_piece.origin),
            old(self).lock_down_counter == u8::MAX ==> !moves_piece(*old(self), key),
        ensures
            final(self).wf(),
            final(self).test_piece == trial_after(*old(self), key),
            final(self).exit == (old(self).exit || key_action(key, old(self).rotation_pressed)
                == KeyAction::Quit),
            final(self).soft_drop == (if key_action(key, old(self).rotation_pressed)
                == KeyAction::StartSoftDrop {
                true
            } else if key_action(key, old(self).rotation_pressed) == KeyAction::StopSoftDrop {
                false
            } else {
                old(self).soft_drop
            }),
            final(self).hard_drop == (old(self).hard_drop || key_action(
                key,
                old(self).rotation_pressed,
            ) == KeyAction::HardDrop),
            final(self).rotation_pressed == (if key_action(key, old(self).rotation_pressed) is Rotate {
                true
            } else if key_action(key, old(self).rotation_pressed) == KeyAction::ReleaseRotation {
                false
            } else {
                old(self).rotation_pressed
            }),
            final(self).horizontal_move == horizontal_after(
                old(self).horizontal_move,
                key_action(key, old(self).rotation_pressed),
            ),
            ({
                let outcome = trial_outcome(
                    rows_of(old(self).play_area_cells),
                    trial_after(*old(self), key),
                    key_action(key, old(self).rotation_pressed) is Rotate,
                    old(self).current_piece.shape,
                );
                match outcome {
                    Some(p) => final(self).current_piece == (Piece {
                        origin: p,
                        orientation_idx: final(self).test_piece.orientation_idx,
                        offsets: final(self).test_piece.offsets,
                        ..old(self).current_piece
                    }),
                    None => final(self).current_piece == old(self).current_piece,
                }
            }),
            final(self).lock_down_counter == (if old(self).lock_down_counter > 0 && moves_piece(
                *old(self),
                key,
            ) {
                (old(self).lock_down_counter + 1) as u8
            } else {
                old(self).lock_down_counter
            }),
            final(self).last_lock_down == (if old(self).lock_down_counter > 0 && moves_piece(
                *old(self),
                key,
            ) {
                clock
            } else {
                old(self).last_lock_down
            }),
            fits(rows_of(old(self).play_area_cells), old(self).current_piece.offsets, old(self).current_piece.origin)
                ==> fits(rows_of(final(self).play_area_cells), final(self).current_piece.offsets, final(self).current_piece.origin),
            // Releasing z or x frees the rotation keys; a press of z or x turns
            // the trial piece a quarter (x clockwise, z counter-clockwise) from
            // the piece's orientation once per press, and does nothing while a
            // rotation key is held.
            key.kind == KeyKind::Release && (key.code == KeyCode::Char('z') || key.code
                == KeyCode::Char('x')) ==> !final(self).rotation_pressed,
            key.kind == KeyKind::Press && !old(self).rotation_pressed && key.code == KeyCode::Char('x')
                ==> final(self).rotation_pressed && final(self).test_piece.orientation_idx == (
            old(self).current_piece.orientation_idx + 1) % 4,
            key.kind == KeyKind::Press && !old(self).rotation_pressed && key.code == KeyCode::Char('z')
                ==> final(self).rotation_pressed && final(self).test_piece.orientation_idx == (
            old(self).current_piece.orientation_idx + 3) % 4,
            key.kind == KeyKind::Press && old(self).rotation_pressed && (key.code == KeyCode::Char('z')
                || key.code == KeyCode::Char('x')) ==> final(self).rotation_pressed
                && final(self).test_piece.orientation_idx == old(self).test_piece.orientation_idx,
            *final(self) == (Sketris {
                exit: final(self).exit,
                soft_drop: final(self).soft_drop,
                hard_drop: final(self).hard_drop,
                rotation_pressed: final(self).rotation_pressed,
                horizontal_move: final(self).horizontal_move,
                test_piece: final(self).test_piece,
                current_piece: final(self).current_piece,
                lock_down_counter: final(self).lock_down_counter,
                last_lock_down: final(self).last_lock_down,
                ..*old(self)
            }),
    {
        let is_rotating = self.apply_key(key);
        proof {
            lemma_offsets_bounded(self.current_piece.shape, self.test_piece.orientation_idx as int);
            lemma_kicks_bounded(
                self.current_piece.orientation_idx as int,
                if key_action(key, old(self).rotation_pressed) == KeyAction::Rotate(Dir::ClockWise) { 0 } else { 1 },
            );
        }
        self.test_piece.origin.x += self.horizontal_move;
        assert(self.test_piece == trial_after(*old(self), key));
        if let Some(new_origin) = self.validate_test_piece(is_rotating) {
            proof {
                if is_rotating && self.current_piece.shape != Kind::O {
                    lemma_kick_trials_some(
                        rows_of(self.play_area_cells),
                        self.test_piece.offsets,
                        self.test_piece.origin,
                        self.test_piece.wallkicks,
                        0,
                    );
                }
                lemma_fits_in_well(rows_of(self.play_area_cells), self.test_piece.offsets, new_origin);
            }
            let moved = new_origin.x != self.current_piece.origin.x || new_origin.y
                != self.current_piece.origin.y || self.test_piece.orientation_idx
                != self.current_piece.orientation_idx;
            self.current_piece.update_origin(new_origin);
            self.current_piece.update_orientation(&self.test_piece);
            // Only a move or turn that is taken counts against the lock-down.
            if moved && self.lock_down_counter > 0 {
                self.lock_down_counter += 1;
                self.last_lock_down = clock;
            }
        }
    }

    /// Takes the current piece into the well. A piece with a cell above the
    /// well ends the game; its cells before that one stay written. Otherwise
    /// the full rows are taken out and scored.
    pub fn update_play_area_cells(&mut self)
        requires
            lockable(old(self).current_piece.offsets, old(self).current_piece.origin),
            old(self).lines + cleared_lines(
                rows_of(old(self).play_area_cells),
                old(self).current_piece.offsets,
                old(self).current_piece.origin,
            ) <= usize::MAX,
            old(self).points + line_score(
                cleared_lines(
                    rows_of(old(self).play_area_cells),
                    old(self).current_piece.offsets,
                    old(self).current_piece.origin,
                ),
            ) <= usize::MAX,
        ensures
            rows_of(final(self).play_area_cells) == locked_rows(
                rows_of(old(self).play_area_cells),
                old(self).current_piece.offsets,
                old(self).current_piece.origin,
            ),
            final(self).lines == old(self).lines + cleared_lines(
                rows_of(old(self).play_area_cells),
                old(self).current_piece.offsets,
                old(self).current_piece.origin,
            ),
            final(self).points == old(self).points + line_score(
                cleared_lines(
                    rows_of(old(self).play_area_cells),
                    old(self).current_piece.offsets,
                    old(self).current_piece.origin,
                ),
            ),
            final(self).state == (if lock_ends_game(
                old(self).current_piece.offsets,
                old(self).current_piece.origin,
            ) {
                State::GameOver
            } else {
                old(self).state
            }),
            !lock_ends_game(old(self).current_piece.offsets, old(self).current_piece.origin) ==> forall|y: int|
                0 <= y < 20 ==> !row_full(#[trigger] rows_of(final(self).play_area_cells)[y]),
            *final(self) == (Sketris {
                play_area_cells: final(self).play_area_cells,
                lines: final(self).lines,
                points: final(self).points,
                state: final(self).state,
                ..*old(self)
            }),
    {
        let offsets = self.current_piece.offsets;
        let origin = self.current_piece.origin;
        let ghost b = rows_of(self.play_area_cells);
        let mut i: usize = 0;
        while i < 4
            invariant
                i <= 4,
                offsets == old(self).current_piece.offsets,
                origin == old(self).current_piece.origin,
                b == rows_of(old(self).play_area_cells),
                lockable(offsets, origin),
                first_above(offsets, origin, 0) == first_above(offsets, origin, i as int),
                rows_of(self.play_area_cells) == fill_cells(b, offsets, origin, i as int),
                *self == (Sketris { play_area_cells: self.play_area_cells, ..*old(self) }),
            decreases 4 - i,
        {
            proof {
                lemma_first_above_from(offsets, origin, i as int);
            }
            assert(i32::MIN <= cell_x(offsets, origin, i as int) <= i32::MAX);
            let x = origin.x + offsets[i].0;
            let y = origin.y + offsets[i].1;
            if y < 0 {
                self.state = State::GameOver;
                return;
            }
            assert(first_above(offsets, origin, i as int) == first_above(offsets, origin, i + 1));
            proof {
                lemma_first_above_from(offsets, origin, i + 1);
            }
            assert(i < first_above(offsets, origin, 0));
            let ghost before = rows_of(self.play_area_cells);
            self.play_area_cells[y as usize][x as usize] = true;
            assert(rows_of(self.play_area_cells) =~= before.update(
                y as int,
                before[y as int].update(x as int, true),
            ));
            i += 1;
        }
        let ghost placed = rows_of(self.play_area_cells);
        assert(placed == placed_rows(b, offsets, origin));
        proof {
            assert forall|y: int| 0 <= y < 20 implies (#[trigger] placed[y]).len() == 10 by {
                assert(placed[y] == self.play_area_cells@[y]@);
            }
            lemma_collapse_leaves_no_full_row(placed);
        }
        let removed = clear_full_rows(&mut self.play_area_cells);
        assert(removed@.len() == as_ints(removed@).len());
        assert(removed@.len() <= 20) by {
            lemma_full_rows_in_range(placed, 0);
        }
        self.lines += removed.len();
        match removed.len() {
            1 => self.points += 40,
            2 => self.points += 100,
            3 => self.points += 300,
            4 => self.points += 1200,
            _ => {},
        }
        collapse_rows(&mut self.play_area_cells, &removed, Ghost(placed));
    }

    /// The current piece's origin one row lower.
    pub fn new_position(&self) -> (pos: Position)
        requires
            self.current_piece.origin.y < i32::MAX,
        ensures
            pos == below(self.current_piece.origin),
    {
        Position { x: self.current_piece.origin.x, y: self.current_piece.origin.y + 1 }
    }

    /// Whether the current piece fits with its origin at `pos`.
    pub fn validate_new_position(&self, pos: &Position) -> (valid: bool)
        requires
            scan_in_bounds(rows_of(self.play_area_cells), self.current_piece.offsets, *pos, 0),
        ensures
            valid == fits(rows_of(self.play_area_cells), self.current_piece.offsets, *pos),
    {
        let offsets = self.current_piece.offsets;
        let mut i: usize = 0;
        while i < 4
            invariant
                i <= 4,
                offsets == self.current_piece.offsets,
                scan_in_bounds(rows_of(self.play_area_cells), offsets, *pos, i as int),
                forall|k: int|
                    0 <= k < i ==> open_cell(
                        rows_of(self.play_area_cells),
                        cell_x(offsets, *pos, k),
                        #[trigger] cell_y(offsets, *pos, k),
                    ),
            decreases 4 - i,
        {
            let x = pos.x + offsets[i].0;
            let y = pos.y + offsets[i].1;
            if y < 0 {
                if 0 <= x && x < 10 {
                    i += 1;
                    continue;
                } else {
                    assert(!open_cell(rows_of(self.play_area_cells), x as int, y as int));
                    return false;
                }
            }
            if y > 19 || self.play_area_cells[y as usize][x as usize] {
                assert(!open_cell(rows_of(self.play_area_cells), x as int, y as int));
                return false;
            }
            i += 1;
        }
        true
    }

    /// Tries the trial piece where it stands, or, for a rotation, at each of
    /// its wall-kick tests in order, and returns the origin of the first place
    /// that fits.
    pub fn validate_test_piece(&self, is_rotating: bool) -> (outcome: Option<Position>)
        requires
            offsets_bounded(self.test_piece.offsets),
            kicks_bounded(self.test_piece.wallkicks),
            has_margin(self.test_piece.origin, 4),
        ensures
            outcome == trial_outcome(
                rows_of(self.play_area_cells),
                self.test_piece,
                is_rotating,
                self.current_piece.shape,
            ),
            // A shift is taken where the trial piece stands, exactly when each
            // cell lies between the walls, not below the floor, and either
            // above the well or on a free cell.
            !is_rotating ==> (outcome is None || outcome == Some(self.test_piece.origin)),
            !is_rotating ==> (outcome is Some <==> forall|i: int|
                #![trigger self.test_piece.offsets[i]]
                0 <= i < 4 ==> {
                    let x = self.test_piece.origin.x + self.test_piece.offsets[i].0;
                    let y = self.test_piece.origin.y + self.test_piece.offsets[i].1;
                    &&& 0 <= x < 10
                    &&& y <= 19
                    &&& (y < 0 || !self.play_area_cells[y][x])
                }),
    {
        proof {
            lemma_shift_outcome(
                rows_of(self.play_area_cells),
                self.test_piece,
                self.current_piece.shape,
            );
            if !is_rotating {
                assert forall|i: int| 0 <= i < 4 implies (#[trigger] rows_of(self.play_area_cells)[i])
                    == rows_of(self.play_area_cells)[i] by {}
                lemma_rows_of_index(self.play_area_cells);
            }
        }
        let ghost rows = rows_of(self.play_area_cells);
        let offsets = self.test_piece.offsets;
        // No wall kicks for a shift, nor for the O piece.
        if !is_rotating || self.current_piece.shape == Kind::O {
            let pos = self.test_piece.origin;
            let mut i: usize = 0;
            while i < 4
                invariant
                    i <= 4,
                    rows == rows_of(self.play_area_cells),
                    offsets == self.test_piece.offsets,
                    pos == self.test_piece.origin,
                    !is_rotating || self.current_piece.shape == Kind::O,
                    offsets_bounded(offsets),
                    has_margin(pos, 4),
                    forall|k: int|
                        0 <= k < i ==> open_cell(
                            rows,
                            cell_x(offsets, pos, k),
                            #[trigger] cell_y(offsets, pos, k),
                        ),
                decreases 4 - i,
            {
                assert(-1 <= offsets[i as int].0 <= 2);
                let test_x = pos.x + offsets[i].0;
                let test_y = pos.y + offsets[i].1;
                // A cell above the well is allowed between the walls.
                if test_y < 0 {
                    if 0 <= test_x && test_x < 10 {
                        i += 1;
                        continue;
                    } else {
                        assert(!open_cell(rows, cell_x(offsets, pos, i as int), cell_y(offsets, pos, i as int)));
                        return None;
                    }
                }
                if !(0 <= test_x && test_x < 10) || test_y > 19 {
                    assert(!open_cell(rows, cell_x(offsets, pos, i as int), cell_y(offsets, pos, i as int)));
                    return None;
                }
                if self.play_area_cells[test_y as usize][test_x as usize] {
                    assert(!open_cell(rows, cell_x(offsets, pos, i as int), cell_y(offsets, pos, i as int)));
                    return None;
                }
                i += 1;
            }
            return Some(pos);
        }
        let origin = self.test_piece.origin;
        let wallkicks = self.test_piece.wallkicks;
        let tests: usize = 5;
        let mut test: usize = 0;
        while test < tests
            invariant
                tests == 5,
                test <= 5,
                rows == rows_of(self.play_area_cells),
                offsets == self.test_piece.offsets,
                origin == self.test_piece.origin,
                wallkicks == self.test_piece.wallkicks,
                offsets_bounded(offsets),
                kicks_bounded(wallkicks),
                has_margin(origin, 4),
                is_rotating && self.current_piece.shape != Kind::O,
                kick_trials(rows, offsets, origin, wallkicks, 0) == kick_trials(
                    rows,
                    offsets,
                    origin,
                    wallkicks,
                    test as int,
                ),
            decreases 5 - test,
        {
            let mut success = true;
            assert(-2 <= wallkicks[test as int].0 <= 2);
            let x = origin.x + wallkicks[test].0;
            let y = origin.y + wallkicks[test].1;
            let ghost p = kicked(origin, wallkicks, test as int);
            assert(p == Position { x, y });
            let mut i: usize = 0;
            while i < 4
                invariant_except_break
                    success,
                invariant
                    i <= 4,
                    rows == rows_of(self.play_area_cells),
                    offsets == self.test_piece.offsets,
                    offsets_bounded(offsets),
                    p == (Position { x, y }),
                    i32::MIN + 2 <= x <= i32::MAX - 2,
                    i32::MIN + 2 <= y <= i32::MAX - 2,
                    kick_trials(rows, offsets, origin, wallkicks, 0) == kick_trials(
                        rows,
                        offsets,
                        origin,
                        wallkicks,
                        test as int,
                    ),
                    test < 5,
                    is_rotating && self.current_piece.shape != Kind::O,
                    origin == self.test_piece.origin,
                    wallkicks == self.test_piece.wallkicks,
                    p == kicked(origin, wallkicks, test as int),
                    forall|k: int|
                        0 <= k < i ==> open_cell(
                            rows,
                            cell_x(offsets, p, k),
                            #[trigger] cell_y(offsets, p, k),
                        ),
                ensures
                    success == fits(rows, offsets, p),
                decreases 4 - i,
            {
                assert(-1 <= offsets[i as int].0 <= 2);
                let test_x = x + offsets[i].0;
                let test_y = y + offsets[i].1;
                // A cell above the well is allowed between the walls.
                if test_y < 0 {
                    if 0 <= test_x && test_x < 10 {
                        i += 1;
                        continue;
                    } else {
                        // This test fails; the next one is tried.
                        assert(!open_cell(rows, cell_x(offsets, p, i as int), cell_y(offsets, p, i as int)));
                        success = false;
                        break;
                    }
                }
                if !(0 <= test_x && test_x < 10) || test_y > 19 {
                    assert(!open_cell(rows, cell_x(offsets, p, i as int), cell_y(offsets, p, i as int)));
                    success = false;
                    break;
                }
                if self.play_area_cells[test_y as usize][test_x as usize] {
                    assert(!open_cell(rows, cell_x(offsets, p, i as int), cell_y(offsets, p, i as int)));
                    success = false;
                    break;
                }
                i += 1;
            }
            if success {
                return Some(Position::new(x, y));
            }
            test += 1;
        }
        None
    }

    /// Where the shadow of the current piece is drawn when its origin is at `pos`.
    pub fn find_shadow_piece_origin(&self, pos: Position) -> (shadow_origin: Position)
        requires
            between_walls(self.current_piece.offsets, pos),
            offsets_bounded(self.current_piece.offsets),
            i32::MIN + 1 <= pos.y <= 20,
        ensures
            shadow_origin == shadow(rows_of(self.play_area_cells), self.current_piece.offsets, pos),
    {
        let offsets = self.current_piece.offsets;
        let ghost rows = rows_of(self.play_area_cells);
        let ghost start = pos;
        let mut p = pos;
        loop
            invariant
                offsets == self.current_piece.offsets,
                rows == rows_of(self.play_area_cells),
                offsets_bounded(offsets),
                between_walls(offsets, p),
                i32::MIN + 1 <= p.y <= 20,
                shadow(rows, offsets, p) == shadow(rows, offsets, start),
                start == pos,
            decreases 21 - p.y,
        {
            let mut i: usize = 0;
            while i < 4
                invariant
                    i <= 4,
                    offsets == self.current_piece.offsets,
                    rows == rows_of(self.play_area_cells),
                    between_walls(offsets, p),
                    offsets_bounded(offsets),
                    i32::MIN + 1 <= p.y <= 20,
                    shadow(rows, offsets, p) == shadow(rows, offsets, start),
                start == pos,
                    forall|k: int|
                        0 <= k < i ==> !({
                            let x = cell_x(offsets, p, k);
                            let y = #[trigger] cell_y(offsets, p, k) + 1;
                            y > 19 || (y > 0 && rows[y][x])
                        }),
                decreases 4 - i,
            {
                assert(0 <= cell_x(offsets, p, i as int) < 10);
                let test_x = p.x + offsets[i].0;
                let test_y = p.y + offsets[i].1 + 1;
                if test_y > 19 || (test_y > 0 && self.play_area_cells[test_y as usize][test_x as usize]) {
                    assert(shadow_stops(rows, offsets, p));
                    assert(shadow(rows, offsets, p) == p);
                    return Position { y: p.y, x: p.x };
                }
                i += 1;
            }
            assert(!shadow_stops(rows, offsets, p));
            assert(p.y <= 19) by {
                assert(-1 <= offsets[0].0 <= 2);
                assert(!({
                    let x = cell_x(offsets, p, 0);
                    let y = cell_y(offsets, p, 0) + 1;
                    y > 19 || (y > 0 && rows[y][x])
                }));
            }
            assert(shadow(rows, offsets, p) == shadow(rows, offsets, below(p)));
            let ghost prev = p;
            p.y += 1;
            assert(between_walls(offsets, p)) by {
                assert forall|k: int| 0 <= k < 4 implies 0 <= #[trigger] cell_x(offsets, p, k) < 10
                    && i32::MIN <= cell_y(offsets, p, k) <= i32::MAX by {
                    assert(-1 <= offsets[k].0 <= 2);
                    assert(cell_x(offsets, p, k) == cell_x(offsets, prev, k));
                }
            }
        }
    }
}

/// A move or rotation is handed to the piece in play only at a place where
/// the piece fits.
pub proof fn lemma_accepted_place_fits(
    rows: Seq<Seq<bool>>,
    test: TestPiece,
    rotating: bool,
    shape: Kind,
)
    requires
        trial_outcome(rows, test, rotating, shape) is Some,
    ensures
        fits(rows, test.offsets, trial_outcome(rows, test, rotating, shape)->0),
{
    if rotating && shape != Kind::O {
        lemma_kick_trials_some(rows, test.offsets, test.origin, test.wallkicks, 0);
    }
}

/// A rotation whose first wall-kick test is no kick, and that fits where the
/// piece stands, is taken there.
pub proof fn lemma_rotation_in_place(rows: Seq<Seq<bool>>, test: TestPiece, shape: Kind)
    requires
        fits(rows, test.offsets, test.origin),
        test.wallkicks[0] == (0i32, 0i32),
    ensures
        trial_outcome(rows, test, true, shape) == Some(test.origin),
{
    let p = kicked(test.origin, test.wallkicks, 0);
    assert(p == test.origin);
}

/// The shadow marks where a hard drop would lock the piece in play, as long
/// as the top row of the well is empty (the shadow does not look at it).
pub proof fn lemma_shadow_marks_hard_drop(s: Sketris)
    requires
        s.wf(),
        s.hard_drop,
        fits(rows_of(s.play_area_cells), s.current_piece.offsets, s.current_piece.origin),
        forall|x: int| 0 <= x < 10 ==> !s.play_area_cells[0][x],
    ensures
        shadow(rows_of(s.play_area_cells), s.current_piece.offsets, s.current_piece.origin)
            == lock_origin(s),
{
    lemma_offsets_bounded(s.current_piece.shape, s.current_piece.orientation_idx as int);
    let rows = rows_of(s.play_area_cells);
    assert forall|x: int| 0 <= x < 10 implies !rows[0][x] by {
        assert(rows[0] == s.play_area_cells@[0]@);
    }
    lemma_shadow_is_landing(rows, s.current_piece.offsets, s.current_piece.origin);
}

/// Gravity is due exactly when the interval in force (50 ms while a soft
/// drop is held) has passed since gravity last acted (time read earlier
/// than that step counts as none passed), and the piece locks in a tick
/// exactly on a hard drop, or when it has landed and either its wait has
/// run out or it has been moved more than 15 times.
pub proof fn lemma_gravity_timing(s: Sketris, now: u64)
    ensures
        gravity_due(s, now) <==> (if now >= s.last_gravity {
            now - s.last_gravity
        } else {
            0
        }) >= (if s.soft_drop {
            50_000_000
        } else {
            s.gravity_interval
        }),
        !locks_now(s, now) <==> (!s.hard_drop && !(s.lock_down_counter > 0 && ((now
            >= s.last_lock_down && now - s.last_lock_down >= s.lock_down_timer) || (now
            < s.last_lock_down && s.lock_down_timer == 0) || s.lock_down_counter > 15))),
{
}

/// A shift (no rotation) is taken where the trial piece stands, exactly
/// when each of its cells lies between the walls, not below the floor, and
/// either above the well or on a free cell; otherwise it is refused.
pub proof fn lemma_shift_outcome(rows: Seq<Seq<bool>>, test: TestPiece, shape: Kind)
    ensures
        trial_outcome(rows, test, false, shape) is None || trial_outcome(rows, test, false, shape)
            == Some(test.origin),
        trial_outcome(rows, test, false, shape) is Some <==> forall|i: int|
            #![trigger test.offsets[i]]
            0 <= i < 4 ==> {
                let x = test.origin.x + test.offsets[i].0;
                let y = test.origin.y + test.offsets[i].1;
                &&& 0 <= x < 10
                &&& y <= 19
                &&& (y < 0 || !rows[y][x])
            },
{
    let raw = forall|i: int|
        #![trigger test.offsets[i]]
        0 <= i < 4 ==> {
            let x = test.origin.x + test.offsets[i].0;
            let y = test.origin.y + test.offsets[i].1;
            &&& 0 <= x < 10
            &&& y <= 19
            &&& (y < 0 || !rows[y][x])
        };
    if fits(rows, test.offsets, test.origin) {
        assert forall|i: int| 0 <= i < 4 implies ({
            let x = test.origin.x + #[trigger] test.offsets[i].0;
            let y = test.origin.y + test.offsets[i].1;
            &&& 0 <= x < 10
            &&& y <= 19
            &&& (y < 0 || !rows[y][x])
        }) by {
            assert(open_cell(rows, cell_x(test.offsets, test.origin, i), cell_y(test.offsets, test.origin, i)));
        }
    } else {
        let i = choose|i: int|
            0 <= i < 4 && !open_cell(
                rows,
                cell_x(test.offsets, test.origin, i),
                #[trigger] cell_y(test.offsets, test.origin, i),
            );
        assert(!open_cell(rows, cell_x(test.offsets, test.origin, i), cell_y(test.offsets, test.origin, i)));
        assert(test.offsets[i] == test.offsets[i]);
        assert(!raw);
    }
}

/// The rows of the well read cell for cell as the cells themselves.
pub proof fn lemma_rows_of_index(cells: [[bool; 10]; 20])
    ensures
        forall|y: int, x: int|
            0 <= y < 20 && 0 <= x < 10 ==> #[trigger] rows_of(cells)[y][x] == cells[y][x],
{
    assert forall|y: int, x: int| 0 <= y < 20 && 0 <= x < 10 implies #[trigger] rows_of(cells)[y][x]
        == cells[y][x] by {
        assert(rows_of(cells)[y] == cells@[y]@);
    }
}

} // verus!
