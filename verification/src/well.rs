//! The well: twenty rows of ten cells, how a piece fits in it, and how full
//! rows are taken out when a piece locks.

use vstd::prelude::*;
use crate::shape::{offsets_bounded, Position};

verus! {

/// The rows of the well, top row first, each as ten cells.
pub open spec fn rows_of(cells: [[bool; 10]; 20]) -> Seq<Seq<bool>> {
    cells@.map_values(|r: [bool; 10]| r@)
}

/// A row in which every one of the ten cells is taken.
pub open spec fn row_full(row: Seq<bool>) -> bool {
    forall|x: int| 0 <= x < 10 ==> #[trigger] row[x]
}

/// A row with no cell taken.
pub open spec fn empty_row() -> Seq<bool> {
    Seq::new(10, |x: int| false)
}

/// The indices, in ascending order, of the full rows among the first `n`.
pub open spec fn full_rows(rows: Seq<Seq<bool>>, n: int) -> Seq<int>
    decreases n,
{
    if n <= 0 {
        seq![]
    } else if row_full(rows[n - 1]) {
        full_rows(rows, n - 1).push(n - 1)
    } else {
        full_rows(rows, n - 1)
    }
}

/// The rows among the first `n` that are not full, in their order.
pub open spec fn kept_rows(rows: Seq<Seq<bool>>, n: int) -> Seq<Seq<bool>>
    decreases n,
{
    if n <= 0 {
        seq![]
    } else if row_full(rows[n - 1]) {
        kept_rows(rows, n - 1)
    } else {
        kept_rows(rows, n - 1).push(rows[n - 1])
    }
}

/// The top row once the full rows are emptied.
pub open spec fn top_row(rows: Seq<Seq<bool>>) -> Seq<bool> {
    if row_full(rows[0]) {
        empty_row()
    } else {
        rows[0]
    }
}

/// The well after its full rows are taken out: the rows that were not full
/// keep their order and settle at the bottom; each of the rows left free at
/// the top is a copy of the top row (emptied if it was full itself).
pub open spec fn collapse(rows: Seq<Seq<bool>>) -> Seq<Seq<bool>> {
    Seq::new(full_rows(rows, 20).len(), |i: int| top_row(rows)) + kept_rows(rows, 20)
}

/// The well with the full rows among the first `n` emptied in place.
pub open spec fn cleared_prefix(rows: Seq<Seq<bool>>, n: int) -> Seq<Seq<bool>> {
    Seq::new(
        rows.len(),
        |y: int|
            if y < n && row_full(rows[y]) {
                empty_row()
            } else {
                rows[y]
            },
    )
}

/// `rows` with the rows at the ascending indices `removed` taken out.
pub open spec fn remove_rows(rows: Seq<Seq<bool>>, removed: Seq<int>) -> Seq<Seq<bool>>
    decreases removed.len(),
{
    if removed.len() == 0 {
        rows
    } else {
        remove_rows(rows, removed.drop_last()).remove(
            removed.last() - (removed.len() - 1),
        )
    }
}

/// The points that clearing `lines` rows at once earns.
pub open spec fn line_score(lines: int) -> int {
    if lines == 1 {
        40
    } else if lines == 2 {
        100
    } else if lines == 3 {
        300
    } else if lines == 4 {
        1200
    } else {
        0
    }
}

/// Cell `i` of a piece with these offsets whose origin is at `origin`.
pub open spec fn cell_x(offsets: [(i32, i32); 4], origin: Position, i: int) -> int {
    origin.x + offsets[i].0
}

pub open spec fn cell_y(offsets: [(i32, i32); 4], origin: Position, i: int) -> int {
    origin.y + offsets[i].1
}

/// A cell a piece may occupy: inside the walls, not below the floor, and
/// either above the well or free.
pub open spec fn open_cell(rows: Seq<Seq<bool>>, x: int, y: int) -> bool {
    &&& 0 <= x < 10
    &&& y <= 19
    &&& (y < 0 || !rows[y][x])
}

/// Every cell of the piece is open.
pub open spec fn fits(rows: Seq<Seq<bool>>, offsets: [(i32, i32); 4], origin: Position) -> bool {
    forall|i: int|
        0 <= i < 4 ==> open_cell(rows, cell_x(offsets, origin, i), #[trigger] cell_y(offsets, origin, i))
}

/// Every cell of the piece lies between the walls, not below the floor, and
/// at a row that an `i32` holds.
pub open spec fn in_well(offsets: [(i32, i32); 4], origin: Position) -> bool {
    forall|i: int|
        0 <= i < 4 ==> 0 <= #[trigger] cell_x(offsets, origin, i) < 10 && i32::MIN <= cell_y(
            offsets,
            origin,
            i,
        ) <= 19
}

/// Every cell of the piece lies between the walls, at a row that an `i32` holds.
pub open spec fn between_walls(offsets: [(i32, i32); 4], origin: Position) -> bool {
    forall|i: int|
        0 <= i < 4 ==> 0 <= #[trigger] cell_x(offsets, origin, i) < 10 && i32::MIN <= cell_y(
            offsets,
            origin,
            i,
        ) <= i32::MAX
}

/// Checking the piece at `origin` cell by cell, in table order, stopping at
/// the first cell that is not open, reads the well only between the walls:
/// every cell it reaches has coordinates that an `i32` holds, and a reached
/// cell in a row of the well lies between the walls.
pub open spec fn scan_in_bounds(
    rows: Seq<Seq<bool>>,
    offsets: [(i32, i32); 4],
    origin: Position,
    i: int,
) -> bool
    decreases 4 - i,
{
    if i < 0 || i >= 4 {
        true
    } else {
        let x = cell_x(offsets, origin, i);
        let y = cell_y(offsets, origin, i);
        &&& i32::MIN <= x <= i32::MAX
        &&& i32::MIN <= y <= i32::MAX
        &&& if y < 0 {
            0 <= x < 10 ==> scan_in_bounds(rows, offsets, origin, i + 1)
        } else if y > 19 {
            true
        } else {
            0 <= x < 10 && (!rows[y][x] ==> scan_in_bounds(rows, offsets, origin, i + 1))
        }
    }
}

/// A piece between the walls is checked within bounds.
pub proof fn lemma_walls_scan_in_bounds(
    rows: Seq<Seq<bool>>,
    offsets: [(i32, i32); 4],
    origin: Position,
    i: int,
)
    requires
        between_walls(offsets, origin),
        0 <= i <= 4,
    ensures
        scan_in_bounds(rows, offsets, origin, i),
    decreases 4 - i,
{
    if i < 4 {
        assert(0 <= cell_x(offsets, origin, i) < 10);
        lemma_walls_scan_in_bounds(rows, offsets, origin, i + 1);
    }
}

/// Locking the piece writes only cells inside the well: every cell up to
/// the first one above the well has coordinates that an `i32` holds, and
/// every cell before it lies between the walls, not below the floor.
pub open spec fn lockable(offsets: [(i32, i32); 4], origin: Position) -> bool {
    forall|i: int|
        0 <= i < 4 && i <= first_above(offsets, origin, 0) ==> {
            &&& i32::MIN <= #[trigger] cell_x(offsets, origin, i) <= i32::MAX
            &&& i32::MIN <= cell_y(offsets, origin, i) <= i32::MAX
            &&& i < first_above(offsets, origin, 0) ==> 0 <= cell_x(offsets, origin, i) < 10
                && cell_y(offsets, origin, i) <= 19
        }
}

/// The index of the first cell, from `i` on, that lies above the well (4 if none).
pub open spec fn first_above(offsets: [(i32, i32); 4], origin: Position, i: int) -> int
    decreases 4 - i,
{
    if i >= 4 {
        4
    } else if cell_y(offsets, origin, i) < 0 {
        i
    } else {
        first_above(offsets, origin, i + 1)
    }
}

/// The well with the first `n` cells of the piece taken.
pub open spec fn fill_cells(
    rows: Seq<Seq<bool>>,
    offsets: [(i32, i32); 4],
    origin: Position,
    n: int,
) -> Seq<Seq<bool>>
    decreases n,
{
    if n <= 0 {
        rows
    } else {
        let before = fill_cells(rows, offsets, origin, n - 1);
        let x = cell_x(offsets, origin, n - 1);
        let y = cell_y(offsets, origin, n - 1);
        before.update(y, before[y].update(x, true))
    }
}

/// Locking a piece with a cell above the well ends the game.
pub open spec fn lock_ends_game(offsets: [(i32, i32); 4], origin: Position) -> bool {
    first_above(offsets, origin, 0) < 4
}

/// The cells that locking writes: those before the first one above the well.
pub open spec fn placed_rows(
    rows: Seq<Seq<bool>>,
    offsets: [(i32, i32); 4],
    origin: Position,
) -> Seq<Seq<bool>> {
    fill_cells(rows, offsets, origin, first_above(offsets, origin, 0))
}

/// The well after a piece locks.
pub open spec fn locked_rows(
    rows: Seq<Seq<bool>>,
    offsets: [(i32, i32); 4],
    origin: Position,
) -> Seq<Seq<bool>> {
    if lock_ends_game(offsets, origin) {
        placed_rows(rows, offsets, origin)
    } else {
        collapse(placed_rows(rows, offsets, origin))
    }
}

/// How many rows locking a piece clears.
pub open spec fn cleared_lines(
    rows: Seq<Seq<bool>>,
    offsets: [(i32, i32); 4],
    origin: Position,
) -> int {
    if lock_ends_game(offsets, origin) {
        0
    } else {
        full_rows(placed_rows(rows, offsets, origin), 20).len() as int
    }
}

/// One row lower.
pub open spec fn below(p: Position) -> Position {
    Position { x: p.x, y: (p.y + 1) as i32 }
}

/// Where a piece falling straight down from `p` comes to rest: the lowest
/// place it reaches one row at a time while it fits.
pub open spec fn landing(rows: Seq<Seq<bool>>, offsets: [(i32, i32); 4], p: Position) -> Position
    decreases 32 - p.y,
{
    if p.y >= 32 || !fits(rows, offsets, below(p)) {
        p
    } else {
        landing(rows, offsets, below(p))
    }
}

/// The shadow stops above `p` when a cell one row lower would be below the
/// floor or on a taken cell of rows 1 to 19 (row 0 is not looked at).
pub open spec fn shadow_stops(rows: Seq<Seq<bool>>, offsets: [(i32, i32); 4], p: Position) -> bool {
    exists|i: int|
        0 <= i < 4 && ({
            let x = cell_x(offsets, p, i);
            let y = #[trigger] cell_y(offsets, p, i) + 1;
            y > 19 || (y > 0 && rows[y][x])
        })
}

/// The place the shadow of a piece at `p` is drawn: the first place at or
/// below `p` where it stops.
pub open spec fn shadow(rows: Seq<Seq<bool>>, offsets: [(i32, i32); 4], p: Position) -> Position
    decreases 32 - p.y,
{
    if p.y >= 32 || shadow_stops(rows, offsets, p) {
        p
    } else {
        shadow(rows, offsets, below(p))
    }
}

/// The origin moved by wall-kick test `t`.
pub open spec fn kicked(origin: Position, kicks: [(i32, i32); 5], t: int) -> Position {
    Position { x: (origin.x + kicks[t].0) as i32, y: (origin.y + kicks[t].1) as i32 }
}

/// The outcome of the wall-kick tests from `t` on: the first place, in the
/// order of the tests, where the piece fits; none if no test fits.
pub open spec fn kick_trials(
    rows: Seq<Seq<bool>>,
    offsets: [(i32, i32); 4],
    origin: Position,
    kicks: [(i32, i32); 5],
    t: int,
) -> Option<Position>
    decreases 5 - t,
{
    if t >= 5 {
        None
    } else {
        let p = kicked(origin, kicks, t);
        if fits(rows, offsets, p) {
            Some(p)
        } else {
            kick_trials(rows, offsets, origin, kicks, t + 1)
        }
    }
}

/// A place that fits with room above `i32::MIN` keeps the piece in the well.
pub proof fn lemma_fits_in_well(rows: Seq<Seq<bool>>, offsets: [(i32, i32); 4], p: Position)
    requires
        fits(rows, offsets, p),
        offsets_bounded(offsets),
        p.y >= i32::MIN + 2,
    ensures
        in_well(offsets, p),
{
    assert forall|i: int| 0 <= i < 4 implies 0 <= #[trigger] cell_x(offsets, p, i) < 10 && i32::MIN
        <= cell_y(offsets, p, i) <= 19 by {
        assert(-1 <= offsets[i].0 <= 2);
        assert(open_cell(rows, cell_x(offsets, p, i), cell_y(offsets, p, i)));
    }
}

/// A piece at `p` whose cells are all at most row 19 has its origin at most at row 20.
pub proof fn lemma_in_well_origin(offsets: [(i32, i32); 4], p: Position)
    requires
        in_well(offsets, p),
        offsets_bounded(offsets),
    ensures
        p.y <= 20,
        -2 <= p.x <= 11,
        between_walls(offsets, p),
{
    assert(-1 <= offsets[0].0 <= 2);
    assert(0 <= cell_x(offsets, p, 0) < 10);
}

/// One row below a place in the well, the piece is still between the walls.
pub proof fn lemma_below_between_walls(offsets: [(i32, i32); 4], p: Position)
    requires
        in_well(offsets, p),
        offsets_bounded(offsets),
    ensures
        between_walls(offsets, below(p)),
{
    lemma_in_well_origin(offsets, p);
    assert forall|k: int| 0 <= k < 4 implies 0 <= #[trigger] cell_x(offsets, below(p), k) < 10
        && i32::MIN <= cell_y(offsets, below(p), k) <= i32::MAX by {
        assert(-1 <= offsets[k].0 <= 2);
        assert(cell_x(offsets, below(p), k) == cell_x(offsets, p, k));
    }
}

/// The shadow lies straight below the piece, at or under it, at a place
/// where it stops.
pub proof fn lemma_shadow_stops(rows: Seq<Seq<bool>>, offsets: [(i32, i32); 4], p: Position)
    requires
        offsets_bounded(offsets),
    ensures
        shadow(rows, offsets, p).x == p.x,
        shadow(rows, offsets, p).y >= p.y,
        shadow_stops(rows, offsets, shadow(rows, offsets, p)),
    decreases 32 - p.y,
{
    assert(-1 <= offsets[0].0 <= 2);
    if p.y >= 32 {
        assert(cell_y(offsets, p, 0) + 1 > 19);
    } else if !shadow_stops(rows, offsets, p) {
        lemma_shadow_stops(rows, offsets, below(p));
    }
}

/// With the top row of the well empty, the shadow of a piece that fits is
/// drawn exactly where a hard drop lands it.
pub proof fn lemma_shadow_is_landing(rows: Seq<Seq<bool>>, offsets: [(i32, i32); 4], p: Position)
    requires
        forall|x: int| 0 <= x < 10 ==> !rows[0][x],
        fits(rows, offsets, p),
        offsets_bounded(offsets),
    ensures
        shadow(rows, offsets, p) == landing(rows, offsets, p),
    decreases 32 - p.y,
{
    if p.y < 32 {
        let q = below(p);
        assert forall|i: int| 0 <= i < 4 implies (open_cell(
            rows,
            cell_x(offsets, q, i),
            #[trigger] cell_y(offsets, q, i),
        ) <==> !({
            let x = cell_x(offsets, p, i);
            let y = cell_y(offsets, p, i) + 1;
            y > 19 || (y > 0 && rows[y][x])
        })) by {
            assert(open_cell(rows, cell_x(offsets, p, i), cell_y(offsets, p, i)));
            assert(cell_x(offsets, q, i) == cell_x(offsets, p, i));
            assert(cell_y(offsets, q, i) == cell_y(offsets, p, i) + 1);
        }
        if fits(rows, offsets, q) {
            assert forall|i: int| 0 <= i < 4 implies !({
                let x = cell_x(offsets, p, i);
                let y = #[trigger] cell_y(offsets, p, i) + 1;
                y > 19 || (y > 0 && rows[y][x])
            }) by {
                assert(open_cell(rows, cell_x(offsets, q, i), cell_y(offsets, q, i)));
            }
            assert(!shadow_stops(rows, offsets, p));
            lemma_shadow_is_landing(rows, offsets, q);
        } else {
            let i = choose|i: int|
                0 <= i < 4 && !open_cell(rows, cell_x(offsets, q, i), #[trigger] cell_y(offsets, q, i));
            assert(0 <= i < 4 && !open_cell(rows, cell_x(offsets, q, i), cell_y(offsets, q, i)));
            assert(shadow_stops(rows, offsets, p));
        }
    }
}

/// A place the wall-kick tests accept is one of the tests, the piece fits
/// there, and no earlier test fits.
pub proof fn lemma_kick_trials_some(
    rows: Seq<Seq<bool>>,
    offsets: [(i32, i32); 4],
    origin: Position,
    kicks: [(i32, i32); 5],
    t: int,
)
    requires
        0 <= t,
        kick_trials(rows, offsets, origin, kicks, t) is Some,
    ensures
        ({
            let p = kick_trials(rows, offsets, origin, kicks, t)->0;
            &&& fits(rows, offsets, p)
            &&& exists|k: int|
                t <= k < 5 && p == kicked(origin, kicks, k) && forall|j: int|
                    t <= j < k ==> !fits(rows, offsets, #[trigger] kicked(origin, kicks, j))
        }),
    decreases 5 - t,
{
    let p = kicked(origin, kicks, t);
    if !fits(rows, offsets, p) {
        lemma_kick_trials_some(rows, offsets, origin, kicks, t + 1);
        let q = kick_trials(rows, offsets, origin, kicks, t + 1)->0;
        let k = choose|k: int|
            t + 1 <= k < 5 && q == kicked(origin, kicks, k) && forall|j: int|
                t + 1 <= j < k ==> !fits(rows, offsets, #[trigger] kicked(origin, kicks, j));
        assert forall|j: int| t <= j < k implies !fits(rows, offsets, #[trigger] kicked(origin, kicks, j)) by {}
    } else {
        assert(t <= t < 5 && p == kicked(origin, kicks, t));
    }
}

/// When no wall-kick test fits, the rotation is refused.
pub proof fn lemma_kick_trials_none(
    rows: Seq<Seq<bool>>,
    offsets: [(i32, i32); 4],
    origin: Position,
    kicks: [(i32, i32); 5],
    t: int,
)
    requires
        0 <= t,
        forall|j: int| t <= j < 5 ==> !fits(rows, offsets, #[trigger] kicked(origin, kicks, j)),
    ensures
        kick_trials(rows, offsets, origin, kicks, t) is None,
    decreases 5 - t,
{
    if t < 5 {
        lemma_kick_trials_none(rows, offsets, origin, kicks, t + 1);
    }
}

// ---------------------------------------------------------------------------
// Lemmas on full rows and their removal.

proof fn lemma_full_rows_facts(rows: Seq<Seq<bool>>, n: int)
    requires
        0 <= n <= rows.len(),
    ensures
        full_rows(rows, n).len() + kept_rows(rows, n).len() == n,
        forall|k: int|
            0 <= k < full_rows(rows, n).len() ==> k <= #[trigger] full_rows(rows, n)[k] < n,
        forall|k1: int, k2: int|
            0 <= k1 < k2 < full_rows(rows, n).len() ==> #[trigger] full_rows(rows, n)[k1]
                < #[trigger] full_rows(rows, n)[k2],
        forall|k: int|
            0 <= k < full_rows(rows, n).len() ==> row_full(rows[#[trigger] full_rows(rows, n)[k]]),
    decreases n,
{
    if n > 0 {
        lemma_full_rows_facts(rows, n - 1);
    }
}

proof fn lemma_full_rows_prefix(rows: Seq<Seq<bool>>, n: int, m: int)
    requires
        0 <= n <= m <= rows.len(),
    ensures
        full_rows(rows, n).len() <= full_rows(rows, m).len(),
        full_rows(rows, m).take(full_rows(rows, n).len() as int) == full_rows(rows, n),
    decreases m - n,
{
    if n < m {
        lemma_full_rows_prefix(rows, n, m - 1);
        let a = full_rows(rows, n);
        let b = full_rows(rows, m - 1);
        assert(full_rows(rows, m).take(a.len() as int) =~= b.take(a.len() as int));
    } else {
        assert(full_rows(rows, m).take(full_rows(rows, n).len() as int) =~= full_rows(rows, n));
    }
}

proof fn lemma_remove_rows_len(rows: Seq<Seq<bool>>, removed: Seq<int>)
    requires
        forall|k: int| 0 <= k < removed.len() ==> k <= #[trigger] removed[k] < rows.len(),
        forall|k1: int, k2: int|
            0 <= k1 < k2 < removed.len() ==> #[trigger] removed[k1] < #[trigger] removed[k2],
    ensures
        remove_rows(rows, removed).len() == rows.len() - removed.len(),
    decreases removed.len(),
{
    if removed.len() > 0 {
        let rest = removed.drop_last();
        lemma_remove_rows_len(rows, rest);
        let k = removed.len() - 1;
        assert(removed[k] >= k);
        assert(removed[k] < rows.len());
        if k > 0 {
            assert(removed[k - 1] < removed[k]);
            assert(removed[k - 1] < rows.len());
        }
        // removed[k] < rows.len() and removed[k] >= k, and the values strictly grow,
        // so removed[k] - k < rows.len() - k.
        assert(removed[k] - k < rows.len() - k) by {
            assert forall|t: int| 0 <= t <= k implies removed[t] <= rows.len() - 1 - (k - t) by {
                lemma_strict_gap(removed, t, k, rows.len() as int);
            }
        }
    }
}

proof fn lemma_strict_gap(s: Seq<int>, t: int, k: int, bound: int)
    requires
        0 <= t <= k < s.len(),
        s[k] < bound,
        forall|k1: int, k2: int| 0 <= k1 < k2 < s.len() ==> #[trigger] s[k1] < #[trigger] s[k2],
    ensures
        s[t] <= bound - 1 - (k - t),
    decreases k - t,
{
    if t < k {
        lemma_strict_gap(s, t + 1, k, bound);
    }
}

/// There are at most twenty full rows, and each lies inside the well.
pub proof fn lemma_full_rows_in_range(rows: Seq<Seq<bool>>, j: int)
    requires
        rows.len() == 20,
    ensures
        full_rows(rows, 20).len() <= 20,
        0 <= j < full_rows(rows, 20).len() ==> 0 <= full_rows(rows, 20)[j] < 20,
{
    lemma_full_rows_facts(rows, 20);
}

/// Taking the full rows (emptied) out of the well leaves exactly the rows
/// that were not full, in their order.
proof fn lemma_remove_full_rows(rows: Seq<Seq<bool>>, n: int)
    requires
        rows.len() == 20,
        0 <= n <= 20,
    ensures
        remove_rows(cleared_prefix(rows, 20), full_rows(rows, n)) == kept_rows(rows, n)
            + cleared_prefix(rows, 20).subrange(n, 20),
    decreases n,
{
    let c = cleared_prefix(rows, 20);
    if n == 0 {
        assert(kept_rows(rows, 0) + c.subrange(0, 20) =~= c);
    } else {
        lemma_remove_full_rows(rows, n - 1);
        lemma_full_rows_facts(rows, n - 1);
        let prev = kept_rows(rows, n - 1) + c.subrange(n - 1, 20);
        if row_full(rows[n - 1]) {
            let fr = full_rows(rows, n);
            assert(fr.drop_last() =~= full_rows(rows, n - 1));
            assert(fr.last() == n - 1);
            let idx = (n - 1) - (fr.len() - 1);
            assert(idx == kept_rows(rows, n - 1).len());
            assert(prev.remove(idx) =~= kept_rows(rows, n) + c.subrange(n, 20));
        } else {
            assert(c[n - 1] == rows[n - 1]);
            assert(prev =~= kept_rows(rows, n) + c.subrange(n, 20));
        }
    }
}

/// The rows after shifting everything from row 1 to row `line` down by one;
/// the top row keeps its cells.
pub open spec fn shifted(rows: Seq<Seq<bool>>, line: int) -> Seq<Seq<bool>> {
    Seq::new(
        rows.len(),
        |y: int|
            if 1 <= y <= line {
                rows[y - 1]
            } else {
                rows[y]
            },
    )
}

/// One shift step of the collapse: with `j` copies of the top row above the
/// rows still to go, shifting at the next full row adds one copy on top and
/// takes that row out.
proof fn lemma_shift_step(top: Seq<bool>, s: Seq<Seq<bool>>, j: int, line: int)
    requires
        0 <= j <= line < 20,
        s.len() == 20 - j,
    ensures
        ({
            let x = Seq::new(j as nat, |i: int| top) + s;
            j > 0 ==> shifted(x, line) == Seq::new((j + 1) as nat, |i: int| top) + s.remove(
                line - j,
            )
        }),
        j == 0 ==> shifted(s, line) =~= Seq::new(1, |i: int| s[0]) + s.remove(line),
{
    let x = Seq::new(j as nat, |i: int| top) + s;
    if j > 0 {
        assert(shifted(x, line) =~= Seq::new((j + 1) as nat, |i: int| top) + s.remove(line - j));
    }
}

/// Shifting down at each full row, top to bottom, collapses the well.
pub proof fn lemma_collapse_by_shifts(rows: Seq<Seq<bool>>, j: int)
    requires
        rows.len() == 20,
        0 <= j < full_rows(rows, 20).len(),
    ensures
        ({
            let c = cleared_prefix(rows, 20);
            let r = full_rows(rows, 20);
            let before = Seq::new(j as nat, |i: int| top_row(rows)) + remove_rows(c, r.take(j));
            shifted(before, r[j]) == Seq::new((j + 1) as nat, |i: int| top_row(rows))
                + remove_rows(c, r.take(j + 1))
        }),
{
    let c = cleared_prefix(rows, 20);
    let r = full_rows(rows, 20);
    lemma_full_rows_facts(rows, 20);
    let t = r.take(j);
    let t1 = r.take(j + 1);
    assert(t1.drop_last() =~= t);
    assert forall|k: int| 0 <= k < t.len() implies k <= #[trigger] t[k] < c.len() by {}
    assert forall|k1: int, k2: int| 0 <= k1 < k2 < t.len() implies #[trigger] t[k1] < #[trigger] t[k2] by {}
    lemma_remove_rows_len(c, t);
    let s = remove_rows(c, t);
    assert(remove_rows(c, t1) == s.remove(r[j] - j));
    lemma_shift_step(top_row(rows), s, j, r[j]);
    if j == 0 {
        assert(s == c);
        assert(c[0] == top_row(rows));
        let before = Seq::new(0, |i: int| top_row(rows)) + s;
        assert(before =~= s);
        assert(Seq::new(1, |i: int| s[0]) =~= Seq::new(1, |i: int| top_row(rows)));
    }
}

/// Once every full row has been shifted out, the well is collapsed.
pub proof fn lemma_collapse_done(rows: Seq<Seq<bool>>)
    requires
        rows.len() == 20,
    ensures
        Seq::new(full_rows(rows, 20).len(), |i: int| top_row(rows)) + remove_rows(
            cleared_prefix(rows, 20),
            full_rows(rows, 20).take(full_rows(rows, 20).len() as int),
        ) == collapse(rows),
{
    let r = full_rows(rows, 20);
    assert(r.take(r.len() as int) =~= r);
    lemma_remove_full_rows(rows, 20);
    let c = cleared_prefix(rows, 20);
    assert(kept_rows(rows, 20) + c.subrange(20, 20) =~= kept_rows(rows, 20));
}

/// After the full rows are taken out no row of the well is full, and the
/// well still has twenty rows.
pub proof fn lemma_collapse_leaves_no_full_row(rows: Seq<Seq<bool>>)
    requires
        rows.len() == 20,
        forall|y: int| 0 <= y < 20 ==> (#[trigger] rows[y]).len() == 10,
    ensures
        collapse(rows).len() == 20,
        forall|y: int| 0 <= y < 20 ==> !row_full(#[trigger] collapse(rows)[y]),
{
    lemma_full_rows_facts(rows, 20);
    lemma_kept_rows_not_full(rows, 20);
    assert(empty_row()[0] == false);
    assert(!row_full(empty_row()));
    let k = full_rows(rows, 20).len();
    assert forall|y: int| 0 <= y < 20 implies !row_full(#[trigger] collapse(rows)[y]) by {
        if y < k {
            assert(collapse(rows)[y] == top_row(rows));
            if row_full(rows[0]) {
                assert(!row_full(empty_row()));
            }
        } else {
            assert(collapse(rows)[y] == kept_rows(rows, 20)[y - k]);
        }
    }
}

proof fn lemma_kept_rows_not_full(rows: Seq<Seq<bool>>, n: int)
    requires
        0 <= n <= rows.len(),
    ensures
        forall|i: int|
            0 <= i < kept_rows(rows, n).len() ==> !row_full(#[trigger] kept_rows(rows, n)[i]),
    decreases n,
{
    if n > 0 {
        lemma_kept_rows_not_full(rows, n - 1);
        let prev = kept_rows(rows, n - 1);
        if !row_full(rows[n - 1]) {
            assert forall|i: int| 0 <= i < kept_rows(rows, n).len() implies !row_full(
                #[trigger] kept_rows(rows, n)[i],
            ) by {
                if i < prev.len() {
                    assert(kept_rows(rows, n)[i] == prev[i]);
                }
            }
        }
    }
}

/// A hard drop from a place that fits comes to rest at a place that fits,
/// at or below where it started, from which it cannot fall further.
pub proof fn lemma_landing_rests(rows: Seq<Seq<bool>>, offsets: [(i32, i32); 4], p: Position)
    requires
        fits(rows, offsets, p),
        offsets_bounded(offsets),
    ensures
        fits(rows, offsets, landing(rows, offsets, p)),
        !fits(rows, offsets, below(landing(rows, offsets, p))),
        landing(rows, offsets, p).x == p.x,
        landing(rows, offsets, p).y >= p.y,
    decreases 32 - p.y,
{
    assert(-1 <= offsets[0].0 <= 2);
    assert(open_cell(rows, cell_x(offsets, p, 0), cell_y(offsets, p, 0)));
    if p.y < 32 && fits(rows, offsets, below(p)) {
        lemma_landing_rests(rows, offsets, below(p));
    }
}

/// Locking a piece clears at most twenty rows and earns at most 1200 points.
pub proof fn lemma_cleared_lines_bounded(
    rows: Seq<Seq<bool>>,
    offsets: [(i32, i32); 4],
    origin: Position,
)
    ensures
        0 <= cleared_lines(rows, offsets, origin) <= 20,
        0 <= line_score(cleared_lines(rows, offsets, origin)) <= 1200,
{
    lemma_full_rows_count(placed_rows(rows, offsets, origin), 20);
}

proof fn lemma_full_rows_count(rows: Seq<Seq<bool>>, n: int)
    ensures
        full_rows(rows, n).len() <= if n < 0 { 0 } else { n },
    decreases n,
{
    if n > 0 {
        lemma_full_rows_count(rows, n - 1);
    }
}

/// The first cell above the well, searched from `i` on, is not before `i`.
pub proof fn lemma_first_above_from(offsets: [(i32, i32); 4], origin: Position, i: int)
    requires
        0 <= i <= 4,
    ensures
        i <= first_above(offsets, origin, i) <= 4,
    decreases 4 - i,
{
    if i < 4 {
        lemma_first_above_from(offsets, origin, i + 1);
    }
}

} // verus!
