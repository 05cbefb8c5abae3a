//! The mathematical model of the board and of one move.
//!
//! A board is a sequence of rows, each a sequence of cells, indexed as
//! `b[x][y]`. A move visits the cells in a given order; each tile it finds
//! slides one step at a time toward `(dx, dy)` until it leaves no room,
//! meets a different tile, or merges with an equal one.
use vstd::prelude::*;
use crate::object::{Object, value_of, occupancy, valid_object, lemma_double_pow2};

verus! {

pub const GRID_WIDTH: usize = 4;

pub const GRID_HEIGHT: usize = 4;

/// The largest value a tile can hold.
pub const MAX_TILE: i16 = 32767;

pub type Board = Seq<Seq<Object>>;

pub open spec fn in_bounds(x: int, y: int) -> bool {
    0 <= x < GRID_WIDTH && 0 <= y < GRID_HEIGHT
}

/// A board of the right shape.
pub open spec fn well_shaped(b: Board) -> bool {
    &&& b.len() == GRID_WIDTH
    &&& forall|x: int| 0 <= x < GRID_WIDTH ==> #[trigger] b[x].len() == GRID_HEIGHT
}

/// A board of the right shape whose tiles are all powers of two from two up.
pub open spec fn valid_board(b: Board) -> bool {
    &&& well_shaped(b)
    &&& forall|x: int, y: int| in_bounds(x, y) ==> valid_object(#[trigger] b[x][y])
}

/// The cell at `(x, y)`, or `None` off the board.
pub open spec fn cell(b: Board, x: int, y: int) -> Option<Object> {
    if in_bounds(x, y) {
        Some(b[x][y])
    } else {
        None
    }
}

/// The board with the cell at `(x, y)` replaced.
pub open spec fn put(b: Board, x: int, y: int, o: Object) -> Board {
    b.update(x, b[x].update(y, o))
}

/// A step of one cell along one axis.
pub open spec fn is_unit_step(dx: int, dy: int) -> bool {
    ||| dx == 0 && (dy == 1 || dy == -1)
    ||| dy == 0 && (dx == 1 || dx == -1)
}

/// One step of the tile `n` at `(x, y)` toward `(dx, dy)`: the board after
/// it, the tile's position and its value. Into an empty cell the tile moves;
/// onto an equal tile it merges; otherwise nothing changes.
pub open spec fn step(b: Board, n: i16, x: int, y: int, dx: int, dy: int) -> (Board, int, int, i16) {
    let tx = x + dx;
    let ty = y + dy;
    match cell(b, tx, ty) {
        Some(Object::Empty) => (put(put(b, tx, ty, Object::Block(n)), x, y, Object::Empty), tx, ty, n),
        Some(Object::Block(m)) => if m == n {
            let d = (n + n) as i16;
            (put(put(b, tx, ty, Object::Block(d)), x, y, Object::Empty), tx, ty, d)
        } else {
            (b, x, y, n)
        },
        None => (b, x, y, n),
    }
}

/// How many cells lie between `(x, y)` and the edge that `(dx, dy)` points to.
pub open spec fn room(x: int, y: int, dx: int, dy: int) -> int {
    if dx == 1 {
        GRID_WIDTH - 1 - x
    } else if dx == -1 {
        x
    } else if dy == 1 {
        GRID_HEIGHT - 1 - y
    } else {
        y
    }
}

/// The whole slide of the tile `n` at `(x, y)`: the board after it, the
/// score it earned and whether the tile moved. It stops at the first step
/// that changes nothing, and right after a merge.
pub open spec fn slide(b: Board, n: i16, x: int, y: int, dx: int, dy: int) -> (Board, int, bool)
    decreases room(x, y, dx, dy),
{
    if !in_bounds(x, y) || !is_unit_step(dx, dy) {
        (b, 0, false)
    } else {
        let (b1, nx, ny, m) = step(b, n, x, y, dx, dy);
        if nx == x && ny == y {
            (b, 0, false)
        } else if m != n {
            (b1, m as int, true)
        } else {
            let (b2, s, _) = slide(b1, n, nx, ny, dx, dy);
            (b2, s, true)
        }
    }
}

/// What a move does at the cell `(x, y)`: slide the tile there, if any.
pub open spec fn visit(b: Board, x: int, y: int, dx: int, dy: int) -> (Board, int, bool) {
    match b[x][y] {
        Object::Block(n) => slide(b, n, x, y, dx, dy),
        Object::Empty => (b, 0, false),
    }
}

/// A move over row `x`, visiting the columns in the order `ys`.
pub open spec fn pass_line(b: Board, x: int, ys: Seq<usize>, dx: int, dy: int) -> (Board, int, bool)
    decreases ys.len(),
{
    if ys.len() == 0 {
        (b, 0, false)
    } else {
        let (b1, s1, m1) = pass_line(b, x, ys.drop_last(), dx, dy);
        let (b2, s2, m2) = visit(b1, x, ys.last() as int, dx, dy);
        (b2, s1 + s2, m1 || m2)
    }
}

/// A whole move: the rows in the order `xs`, each over the columns in the
/// order `ys`. Its result is the board after the move, the score the move
/// earned and whether any tile moved.
pub open spec fn pass(b: Board, xs: Seq<usize>, ys: Seq<usize>, dx: int, dy: int) -> (Board, int, bool)
    decreases xs.len(),
{
    if xs.len() == 0 {
        (b, 0, false)
    } else {
        let (b1, s1, m1) = pass(b, xs.drop_last(), ys, dx, dy);
        let (b2, s2, m2) = pass_line(b1, xs.last() as int, ys, dx, dy);
        (b2, s1 + s2, m1 || m2)
    }
}

/// The sum of `f` over a row.
pub open spec fn row_sum(r: Seq<Object>, f: spec_fn(Object) -> int) -> int
    decreases r.len(),
{
    if r.len() == 0 {
        0
    } else {
        row_sum(r.drop_last(), f) + f(r.last())
    }
}

/// The sum of `f` over a board.
pub open spec fn board_sum(b: Board, f: spec_fn(Object) -> int) -> int
    decreases b.len(),
{
    if b.len() == 0 {
        0
    } else {
        board_sum(b.drop_last(), f) + row_sum(b.last(), f)
    }
}

/// The sum of the values of all tiles.
pub open spec fn total(b: Board) -> int {
    board_sum(b, |o: Object| value_of(o))
}

/// The number of tiles.
pub open spec fn count(b: Board) -> int {
    board_sum(b, |o: Object| occupancy(o))
}

/// A board with no empty cell.
pub open spec fn is_full(b: Board) -> bool {
    forall|x: int, y: int| in_bounds(x, y) ==> (#[trigger] b[x][y]) != Object::Empty
}

/// The conditions under which a move can be made: a valid board whose mass
/// fits in one tile, so that no merge can overflow.
pub open spec fn movable(b: Board) -> bool {
    valid_board(b) && total(b) <= MAX_TILE
}

/// What every slide, and so every move, keeps: the shape, the validity of
/// the tiles and the mass; the tile count never grows, the score is at most
/// the largest tile value per tile lost, and a move that moved nothing left
/// the board as it was.
pub open spec fn keeps(b: Board, r: (Board, int, bool)) -> bool {
    &&& valid_board(r.0)
    &&& total(r.0) == total(b)
    &&& count(r.0) <= count(b)
    &&& 0 <= r.1 <= (count(b) - count(r.0)) * MAX_TILE
    &&& !r.2 ==> r.0 == b
}

pub proof fn lemma_row_sum_update(r: Seq<Object>, f: spec_fn(Object) -> int, i: int, o: Object)
    requires
        0 <= i < r.len(),
    ensures
        row_sum(r.update(i, o), f) == row_sum(r, f) - f(r[i]) + f(o),
    decreases r.len(),
{
    let u = r.update(i, o);
    if i == r.len() - 1 {
        assert(u.drop_last() =~= r.drop_last());
    } else {
        assert(u.drop_last() =~= r.drop_last().update(i, o));
        lemma_row_sum_update(r.drop_last(), f, i, o);
    }
}

pub proof fn lemma_board_sum_update(b: Board, f: spec_fn(Object) -> int, x: int, y: int, o: Object)
    requires
        0 <= x < b.len(),
        0 <= y < b[x].len(),
    ensures
        board_sum(put(b, x, y, o), f) == board_sum(b, f) - f(b[x][y]) + f(o),
    decreases b.len(),
{
    let u = put(b, x, y, o);
    if x == b.len() - 1 {
        assert(u.drop_last() =~= b.drop_last());
        lemma_row_sum_update(b[x], f, y, o);
    } else {
        assert(u.drop_last() =~= put(b.drop_last(), x, y, o));
        lemma_board_sum_update(b.drop_last(), f, x, y, o);
    }
}

pub proof fn lemma_row_sum_nonneg(r: Seq<Object>, f: spec_fn(Object) -> int)
    requires
        forall|i: int| 0 <= i < r.len() ==> f(#[trigger] r[i]) >= 0,
    ensures
        row_sum(r, f) >= 0,
    decreases r.len(),
{
    if r.len() > 0 {
        lemma_row_sum_nonneg(r.drop_last(), f);
    }
}

pub proof fn lemma_board_sum_nonneg(b: Board, f: spec_fn(Object) -> int)
    requires
        forall|x: int, y: int| 0 <= x < b.len() && 0 <= y < b[x].len() ==> f(#[trigger] b[x][y]) >= 0,
    ensures
        board_sum(b, f) >= 0,
    decreases b.len(),
{
    if b.len() > 0 {
        let l = b.drop_last();
        assert forall|x: int, y: int| 0 <= x < l.len() && 0 <= y < l[x].len() implies f(#[trigger] l[x][y]) >= 0 by {
            assert(l[x] == b[x]);
        }
        lemma_board_sum_nonneg(l, f);
        assert forall|i: int| 0 <= i < b.last().len() implies f(#[trigger] b.last()[i]) >= 0 by {
            assert(b.last() == b[b.len() - 1]);
        }
        lemma_row_sum_nonneg(b.last(), f);
    }
}

/// Two distinct cells hold no more than the whole board.
pub proof fn lemma_two_cells_within_total(b: Board, x1: int, y1: int, x2: int, y2: int)
    requires
        valid_board(b),
        in_bounds(x1, y1),
        in_bounds(x2, y2),
        x1 != x2 || y1 != y2,
    ensures
        value_of(b[x1][y1]) + value_of(b[x2][y2]) <= total(b),
{
    let f = |o: Object| value_of(o);
    lemma_board_sum_update(b, f, x1, y1, Object::Empty);
    let b1 = put(b, x1, y1, Object::Empty);
    assert(b1[x2][y2] == b[x2][y2]);
    lemma_board_sum_update(b1, f, x2, y2, Object::Empty);
    let b2 = put(b1, x2, y2, Object::Empty);
    assert forall|x: int, y: int| 0 <= x < b2.len() && 0 <= y < b2[x].len() implies f(#[trigger] b2[x][y]) >= 0 by {
        assert(valid_object(b[x][y]));
    }
    lemma_board_sum_nonneg(b2, f);
}

/// What replacing one cell does to the shape, the mass and the tile count.
pub proof fn lemma_put(b: Board, x: int, y: int, o: Object)
    requires
        well_shaped(b),
        in_bounds(x, y),
    ensures
        well_shaped(put(b, x, y, o)),
        total(put(b, x, y, o)) == total(b) - value_of(b[x][y]) + value_of(o),
        count(put(b, x, y, o)) == count(b) - occupancy(b[x][y]) + occupancy(o),
        forall|i: int, j: int|
            in_bounds(i, j) ==> #[trigger] put(b, x, y, o)[i][j] == if i == x && j == y {
                o
            } else {
                b[i][j]
            },
{
    lemma_board_sum_update(b, |o: Object| value_of(o), x, y, o);
    lemma_board_sum_update(b, |o: Object| occupancy(o), x, y, o);
    let p = put(b, x, y, o);
    assert forall|i: int| 0 <= i < GRID_WIDTH implies #[trigger] p[i].len() == GRID_HEIGHT by {
        assert(b[i].len() == GRID_HEIGHT);
    }
}

/// A slide keeps what `keeps` names.
pub proof fn lemma_slide_keeps(b: Board, n: i16, x: int, y: int, dx: int, dy: int)
    requires
        movable(b),
        in_bounds(x, y),
        b[x][y] == Object::Block(n),
    ensures
        keeps(b, slide(b, n, x, y, dx, dy)),
    decreases room(x, y, dx, dy),
{
    if is_unit_step(dx, dy) {
        let tx = x + dx;
        let ty = y + dy;
        if in_bounds(tx, ty) {
            assert(valid_object(b[x][y]));
            match b[tx][ty] {
                Object::Empty => {
                    let b0 = put(b, tx, ty, Object::Block(n));
                    lemma_put(b, tx, ty, Object::Block(n));
                    lemma_put(b0, x, y, Object::Empty);
                    let b1 = put(b0, x, y, Object::Empty);
                    assert(valid_board(b1));
                    lemma_slide_keeps(b1, n, tx, ty, dx, dy);
                },
                Object::Block(m) => {
                    if m == n {
                        lemma_two_cells_within_total(b, x, y, tx, ty);
                        let d = (n + n) as i16;
                        lemma_double_pow2(n as int);
                        let b0 = put(b, tx, ty, Object::Block(d));
                        lemma_put(b, tx, ty, Object::Block(d));
                        lemma_put(b0, x, y, Object::Empty);
                        let b1 = put(b0, x, y, Object::Empty);
                        assert(valid_board(b1));
                    }
                },
            }
        }
    }
}

/// Column indices that all lie on the board.
pub open spec fn valid_ys(ys: Seq<usize>) -> bool {
    forall|i: int| 0 <= i < ys.len() ==> #[trigger] ys[i] < GRID_HEIGHT
}

/// Row indices that all lie on the board.
pub open spec fn valid_xs(xs: Seq<usize>) -> bool {
    forall|i: int| 0 <= i < xs.len() ==> #[trigger] xs[i] < GRID_WIDTH
}

pub proof fn lemma_visit_keeps(b: Board, x: int, y: int, dx: int, dy: int)
    requires
        movable(b),
        in_bounds(x, y),
    ensures
        keeps(b, visit(b, x, y, dx, dy)),
{
    if let Object::Block(n) = b[x][y] {
        lemma_slide_keeps(b, n, x, y, dx, dy);
    }
}

pub proof fn lemma_pass_line_keeps(b: Board, x: int, ys: Seq<usize>, dx: int, dy: int)
    requires
        movable(b),
        0 <= x < GRID_WIDTH,
        valid_ys(ys),
    ensures
        keeps(b, pass_line(b, x, ys, dx, dy)),
    decreases ys.len(),
{
    if ys.len() > 0 {
        let l = ys.drop_last();
        lemma_pass_line_keeps(b, x, l, dx, dy);
        let b1 = pass_line(b, x, l, dx, dy).0;
        assert(ys[ys.len() - 1] < GRID_HEIGHT);
        lemma_visit_keeps(b1, x, ys.last() as int, dx, dy);
    }
}

pub proof fn lemma_pass_keeps(b: Board, xs: Seq<usize>, ys: Seq<usize>, dx: int, dy: int)
    requires
        movable(b),
        valid_xs(xs),
        valid_ys(ys),
    ensures
        keeps(b, pass(b, xs, ys, dx, dy)),
    decreases xs.len(),
{
    if xs.len() > 0 {
        let l = xs.drop_last();
        lemma_pass_keeps(b, l, ys, dx, dy);
        let b1 = pass(b, l, ys, dx, dy).0;
        assert(xs[xs.len() - 1] < GRID_WIDTH);
        lemma_pass_line_keeps(b1, xs.last() as int, ys, dx, dy);
    }
}

pub proof fn lemma_row_count_bounds(r: Seq<Object>)
    ensures
        0 <= row_sum(r, |o: Object| occupancy(o)) <= r.len(),
    decreases r.len(),
{
    if r.len() > 0 {
        lemma_row_count_bounds(r.drop_last());
    }
}

pub proof fn lemma_board_count_bounds(b: Board)
    requires
        forall|x: int| 0 <= x < b.len() ==> #[trigger] b[x].len() == GRID_HEIGHT,
    ensures
        0 <= count(b) <= b.len() * GRID_HEIGHT,
    decreases b.len(),
{
    if b.len() > 0 {
        let l = b.drop_last();
        assert forall|x: int| 0 <= x < l.len() implies #[trigger] l[x].len() == GRID_HEIGHT by {
            assert(l[x] == b[x]);
        }
        lemma_board_count_bounds(l);
        assert(b.last().len() == GRID_HEIGHT);
        lemma_row_count_bounds(b.last());
    }
}

/// A board holds at most one tile per cell.
pub proof fn lemma_count_bounds(b: Board)
    requires
        well_shaped(b),
    ensures
        0 <= count(b) <= GRID_WIDTH * GRID_HEIGHT,
{
    lemma_board_count_bounds(b);
}

/// The cell with row-major index `k`.
pub open spec fn nth_cell(k: int) -> (int, int) {
    (k / GRID_HEIGHT as int, k % GRID_HEIGHT as int)
}

/// The empty cells among the first `k` cells in row-major order, in that order.
pub open spec fn empties_upto(b: Board, k: int) -> Seq<(int, int)>
    decreases k,
{
    if k <= 0 {
        Seq::empty()
    } else {
        let p = nth_cell(k - 1);
        if b[p.0][p.1] == Object::Empty {
            empties_upto(b, k - 1).push(p)
        } else {
            empties_upto(b, k - 1)
        }
    }
}

/// All empty cells in row-major order.
pub open spec fn empty_cells(b: Board) -> Seq<(int, int)> {
    empties_upto(b, (GRID_WIDTH * GRID_HEIGHT) as int)
}

/// The board with no tile.
pub open spec fn empty_board() -> Board {
    Seq::new(GRID_WIDTH as nat, |x: int| Seq::new(GRID_HEIGHT as nat, |y: int| Object::Empty))
}

pub proof fn lemma_empties_prefix(b: Board, k: int, k2: int)
    requires
        0 <= k <= k2,
    ensures
        empties_upto(b, k).len() <= empties_upto(b, k2).len(),
        forall|i: int| 0 <= i < empties_upto(b, k).len() ==> #[trigger] empties_upto(b, k)[i] == empties_upto(b, k2)[i],
    decreases k2 - k,
{
    if k < k2 {
        lemma_empties_prefix(b, k, k2 - 1);
    }
}

pub proof fn lemma_empties_are_empty(b: Board, k: int)
    requires
        0 <= k <= GRID_WIDTH * GRID_HEIGHT,
    ensures
        forall|i: int| 0 <= i < empties_upto(b, k).len() ==> {
            let p = #[trigger] empties_upto(b, k)[i];
            in_bounds(p.0, p.1) && b[p.0][p.1] == Object::Empty
        },
    decreases k,
{
    if k > 0 {
        lemma_empties_are_empty(b, k - 1);
    }
}

/// A board has an empty cell exactly when its list of empty cells is not empty.
pub proof fn lemma_empty_cells_full(b: Board)
    ensures
        (empty_cells(b).len() == 0) == is_full(b),
        forall|i: int| 0 <= i < empty_cells(b).len() ==> {
            let p = #[trigger] empty_cells(b)[i];
            in_bounds(p.0, p.1) && b[p.0][p.1] == Object::Empty
        },
{
    lemma_empties_are_empty(b, (GRID_WIDTH * GRID_HEIGHT) as int);
    if empty_cells(b).len() > 0 {
        let p = empty_cells(b)[0];
        assert(in_bounds(p.0, p.1) && b[p.0][p.1] == Object::Empty);
    }
    if !is_full(b) {
        let (x, y) = choose|x: int, y: int| in_bounds(x, y) && b[x][y] == Object::Empty;
        let k = x * GRID_HEIGHT + y;
        assert(nth_cell(k) == (x, y));
        assert(empties_upto(b, k + 1).len() > 0);
        lemma_empties_prefix(b, k + 1, (GRID_WIDTH * GRID_HEIGHT) as int);
    }
}

pub proof fn lemma_empty_board()
    ensures
        valid_board(empty_board()),
        total(empty_board()) == 0,
        !is_full(empty_board()),
{
    let e = empty_board();
    assert(e[0][0] == Object::Empty);
    let f = |o: Object| value_of(o);
    assert forall|x: int, y: int| 0 <= x < e.len() && 0 <= y < e[x].len() implies f(#[trigger] e[x][y]) >= 0 by {}
    lemma_board_sum_nonneg(e, f);
    let g = |o: Object| -value_of(o);
    assert forall|x: int, y: int| 0 <= x < e.len() && 0 <= y < e[x].len() implies g(#[trigger] e[x][y]) >= 0 by {}
    lemma_board_sum_nonneg(e, g);
    lemma_board_sum_neg(e, f, g);
}

/// Summing the negation of `f` gives the negated sum.
pub proof fn lemma_board_sum_neg(b: Board, f: spec_fn(Object) -> int, g: spec_fn(Object) -> int)
    requires
        forall|o: Object| #[trigger] g(o) == -f(o),
    ensures
        board_sum(b, g) == -board_sum(b, f),
    decreases b.len(),
{
    if b.len() > 0 {
        lemma_board_sum_neg(b.drop_last(), f, g);
        lemma_row_sum_neg(b.last(), f, g);
    }
}

pub proof fn lemma_row_sum_neg(r: Seq<Object>, f: spec_fn(Object) -> int, g: spec_fn(Object) -> int)
    requires
        forall|o: Object| #[trigger] g(o) == -f(o),
    ensures
        row_sum(r, g) == -row_sum(r, f),
    decreases r.len(),
{
    if r.len() > 0 {
        lemma_row_sum_neg(r.drop_last(), f, g);
    }
}

/// No tile can move toward `(dx, dy)`: beyond each tile lies the edge or a
/// tile of a different value.
pub open spec fn blocked(b: Board, dx: int, dy: int) -> bool {
    forall|x: int, y: int|
        in_bounds(x, y) && (#[trigger] b[x][y]) != Object::Empty ==> match cell(b, x + dx, y + dy) {
            None => true,
            Some(o) => o != Object::Empty && o != b[x][y],
        }
}

/// No two cells side by side hold the same thing.
pub open spec fn no_equal_neighbours(b: Board) -> bool {
    &&& forall|x: int, y: int| in_bounds(x, y) && in_bounds(x + 1, y) ==> #[trigger] b[x][y] != b[x + 1][y]
    &&& forall|x: int, y: int| in_bounds(x, y) && in_bounds(x, y + 1) ==> #[trigger] b[x][y] != b[x][y + 1]
}

pub proof fn lemma_full_is_blocked(b: Board, dx: int, dy: int)
    requires
        is_full(b),
        no_equal_neighbours(b),
        is_unit_step(dx, dy),
    ensures
        blocked(b, dx, dy),
{
    assert forall|x: int, y: int| in_bounds(x, y) && (#[trigger] b[x][y]) != Object::Empty implies match cell(b, x + dx, y + dy) {
        None => true,
        Some(o) => o != Object::Empty && o != b[x][y],
    } by {
        if in_bounds(x + dx, y + dy) {
            assert(b[x + dx][y + dy] != Object::Empty);
            if dx == -1 {
                assert(b[x - 1][y] != b[x - 1 + 1][y]);
            } else if dy == -1 {
                assert(b[x][y - 1] != b[x][y - 1 + 1]);
            }
        }
    }
}

pub proof fn lemma_blocked_slide(b: Board, n: i16, x: int, y: int, dx: int, dy: int)
    requires
        blocked(b, dx, dy),
        in_bounds(x, y),
        b[x][y] == Object::Block(n),
    ensures
        slide(b, n, x, y, dx, dy) == (b, 0int, false),
{
}

pub proof fn lemma_blocked_pass_line(b: Board, x: int, ys: Seq<usize>, dx: int, dy: int)
    requires
        blocked(b, dx, dy),
        0 <= x < GRID_WIDTH,
        valid_ys(ys),
    ensures
        pass_line(b, x, ys, dx, dy) == (b, 0int, false),
    decreases ys.len(),
{
    if ys.len() > 0 {
        lemma_blocked_pass_line(b, x, ys.drop_last(), dx, dy);
        let y = ys.last() as int;
        assert(ys[ys.len() - 1] < GRID_HEIGHT);
        if let Object::Block(n) = b[x][y] {
            lemma_blocked_slide(b, n, x, y, dx, dy);
        }
    }
}

/// A move on a board where no tile can move changes nothing.
pub proof fn lemma_blocked_pass(b: Board, xs: Seq<usize>, ys: Seq<usize>, dx: int, dy: int)
    requires
        blocked(b, dx, dy),
        valid_xs(xs),
        valid_ys(ys),
    ensures
        pass(b, xs, ys, dx, dy) == (b, 0int, false),
    decreases xs.len(),
{
    if xs.len() > 0 {
        lemma_blocked_pass(b, xs.drop_last(), ys, dx, dy);
        assert(xs[xs.len() - 1] < GRID_WIDTH);
        lemma_blocked_pass_line(b, xs.last() as int, ys, dx, dy);
    }
}

} // verus!
