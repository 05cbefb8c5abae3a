//! The board itself: bounds-checked access, the move engine and spawning.
use vstd::prelude::*;
use crate::board::{
    Board, GRID_HEIGHT, GRID_WIDTH, cell, put, in_bounds, is_unit_step, movable, step, slide, room,
    lemma_two_cells_within_total, lemma_slide_keeps, lemma_put, valid_xs, valid_ys, pass, pass_line,
    keeps, lemma_visit_keeps, lemma_count_bounds, count, empty_board, empty_cells, empties_upto, is_full,
    lemma_empty_board, lemma_empty_cells_full, lemma_empties_prefix, total, board_sum, row_sum, valid_board,
    MAX_TILE, nth_cell,
};
use crate::chance::{random_below, random_ratio};
use crate::text::{push_decimal, push_repeat, repeat};
use crate::object::{
    Object, valid_object, value_of, lemma_small_pow2, width_text, cursor_to, box_text, BOX_HEIGHT, BOX_WIDTH,
};

verus! {

/// The board: `GRID_WIDTH` rows of `GRID_HEIGHT` cells, indexed `[x][y]`.
pub struct Grid(pub [[Object; GRID_HEIGHT]; GRID_WIDTH]);

impl View for Grid {
    type V = Board;

    open spec fn view(&self) -> Board {
        Seq::new(GRID_WIDTH as nat, |x: int| Seq::new(GRID_HEIGHT as nat, |y: int| self.0[x][y]))
    }
}

impl Grid {
    /// Replaces the cell at `(x, y)`.
    fn set_cell(&mut self, x: usize, y: usize, o: Object)
        requires
            x < GRID_WIDTH,
            y < GRID_HEIGHT,
        ensures
            final(self)@ == put(old(self)@, x as int, y as int, o),
    {
        self.0[x][y] = o;
        assert(self@ =~~= put(old(self)@, x as int, y as int, o));
    }

    /// The cell at `(x, y)`, or `None` when the coordinate is off the board.
    pub fn obj_at(&self, x: usize, y: usize) -> (r: Option<Object>)
        ensures
            r == cell(self@, x as int, y as int),
    {
        if x >= GRID_WIDTH || y >= GRID_HEIGHT {
            None
        } else {
            Some(self.0[x][y])
        }
    }

    /// Whether the cell at `(x, y)` holds a tile.
    pub fn is_block(&self, x: usize, y: usize) -> (r: bool)
        requires
            x < GRID_WIDTH,
            y < GRID_HEIGHT,
        ensures
            r == (self@[x as int][y as int] != Object::Empty),
    {
        self.0[x][y] != Object::Empty
    }

    /// The cell at `(x + dx, y + dy)`, or an empty cell off the board.
    pub fn block_at(&self, x: usize, y: usize, dx: usize, dy: usize) -> (r: Object)
        requires
            x + dx <= usize::MAX,
            y + dy <= usize::MAX,
        ensures
            r == match cell(self@, x + dx, y + dy) {
                Some(o) => o,
                None => Object::Empty,
            },
    {
        match self.obj_at(x + dx, y + dy) {
            Some(o) => o,
            None => Object::Empty,
        }
    }

    /// One step of the tile `number` at `(x, y)` toward `(dx, dy)`; returns
    /// the tile's new position and value.
    fn mov_delta(&mut self, number: i16, x: i8, y: i8, dx: i8, dy: i8) -> (r: (i8, i8, i16))
        requires
            movable(old(self)@),
            in_bounds(x as int, y as int),
            is_unit_step(dx as int, dy as int),
            old(self)@[x as int][y as int] == Object::Block(number),
        ensures
            (final(self)@, r.0 as int, r.1 as int, r.2) == step(old(self)@, number, x as int, y as int, dx as int, dy as int),
    {
        let tx = x + dx;
        let ty = y + dy;
        if tx < 0 || ty < 0 {
            return (x, y, number);
        }
        match self.obj_at(tx as usize, ty as usize) {
            Some(Object::Block(other)) => {
                if number == other {
                    proof {
                        lemma_two_cells_within_total(self@, x as int, y as int, tx as int, ty as int);
                    }
                    let merged = other + number;
                    self.set_cell(tx as usize, ty as usize, Object::Block(merged));
                    self.set_cell(x as usize, y as usize, Object::Empty);
                    return (tx, ty, merged);
                }
            },
            Some(Object::Empty) => {
                self.set_cell(tx as usize, ty as usize, Object::Block(number));
                self.set_cell(x as usize, y as usize, Object::Empty);
                return (tx, ty, number);
            },
            None => {},
        }
        (x, y, number)
    }

    /// Slides the tile `number` at `(x, y)` as far as it goes; returns the
    /// score it earned and whether it moved.
    fn slide_tile(&mut self, number: i16, x: usize, y: usize, dx: i8, dy: i8) -> (r: (i32, bool))
        requires
            movable(old(self)@),
            in_bounds(x as int, y as int),
            is_unit_step(dx as int, dy as int),
            old(self)@[x as int][y as int] == Object::Block(number),
        ensures
            (final(self)@, r.0 as int, r.1) == slide(old(self)@, number, x as int, y as int, dx as int, dy as int),
    {
        let ghost goal = slide(self@, number, x as int, y as int, dx as int, dy as int);
        let mut ox: i8 = x as i8;
        let mut oy: i8 = y as i8;
        let mut moved = false;
        loop
            invariant
                goal == slide(old(self)@, number, x as int, y as int, dx as int, dy as int),
                movable(self@),
                in_bounds(ox as int, oy as int),
                is_unit_step(dx as int, dy as int),
                self@[ox as int][oy as int] == Object::Block(number),
                moved ==> goal == (
                    slide(self@, number, ox as int, oy as int, dx as int, dy as int).0,
                    slide(self@, number, ox as int, oy as int, dx as int, dy as int).1,
                    true,
                ),
                !moved ==> goal == slide(self@, number, ox as int, oy as int, dx as int, dy as int),
            decreases room(ox as int, oy as int, dx as int, dy as int),
        {
            proof {
                lemma_slide_keeps(self@, number, ox as int, oy as int, dx as int, dy as int);
            }
            let ghost before = self@;
            let (nx, ny, nnum) = self.mov_delta(number, ox, oy, dx, dy);
            if nx == ox && ny == oy {
                return (0, moved);
            }
            if nnum != number {
                return (nnum as i32, true);
            }
            proof {
                lemma_put(before, nx as int, ny as int, Object::Block(number));
                lemma_put(put(before, nx as int, ny as int, Object::Block(number)), ox as int, oy as int, Object::Empty);
                assert(valid_object(Object::Block(number)));
            }
            moved = true;
            ox = nx;
            oy = ny;
        }
    }

    /// Moves every tile toward `(dx, dy)`, visiting the rows in the order
    /// `x_iter` and, within each, the columns in the order `y_iter`. Returns
    /// the score the move earned and whether any tile moved.
    pub fn mov_dir(&mut self, x_iter: &[usize], y_iter: &[usize], dx: i8, dy: i8) -> (r: (i32, bool))
        requires
            movable(old(self)@),
            valid_xs(x_iter@),
            valid_ys(y_iter@),
            is_unit_step(dx as int, dy as int),
        ensures
            (final(self)@, r.0 as int, r.1) == pass(old(self)@, x_iter@, y_iter@, dx as int, dy as int),
            keeps(old(self)@, pass(old(self)@, x_iter@, y_iter@, dx as int, dy as int)),
            movable(final(self)@),
    {
        let ghost b0 = self@;
        let ghost xs = x_iter@;
        let ghost ys = y_iter@;
        proof {
            lemma_count_bounds(b0);
        }
        let mut delta_score: i32 = 0;
        let mut should_spawn_new_block = false;
        let mut i: usize = 0;
        while i < x_iter.len()
            invariant
                b0 == old(self)@,
                movable(b0),
                valid_xs(xs),
                valid_ys(ys),
                is_unit_step(dx as int, dy as int),
                xs == x_iter@,
                ys == y_iter@,
                0 <= count(b0) <= GRID_WIDTH * GRID_HEIGHT,
                0 <= i <= xs.len(),
                (self@, delta_score as int, should_spawn_new_block) == pass(b0, xs.take(i as int), ys, dx as int, dy as int),
                keeps(b0, pass(b0, xs.take(i as int), ys, dx as int, dy as int)),
            decreases xs.len() - i,
        {
            let x = x_iter[i];
            let ghost row_start = self@;
            let ghost row_score = delta_score as int;
            let ghost row_moved = should_spawn_new_block;
            let mut j: usize = 0;
            while j < y_iter.len()
                invariant
                    b0 == old(self)@,
                    movable(b0),
                    movable(row_start),
                    valid_ys(ys),
                    is_unit_step(dx as int, dy as int),
                    ys == y_iter@,
                    x < GRID_WIDTH,
                    0 <= count(b0) <= GRID_WIDTH * GRID_HEIGHT,
                    keeps(b0, (row_start, row_score, row_moved)),
                    0 <= j <= ys.len(),
                    self@ == pass_line(row_start, x as int, ys.take(j as int), dx as int, dy as int).0,
                    delta_score == row_score + pass_line(row_start, x as int, ys.take(j as int), dx as int, dy as int).1,
                    should_spawn_new_block == (row_moved || pass_line(row_start, x as int, ys.take(j as int), dx as int, dy as int).2),
                    keeps(row_start, pass_line(row_start, x as int, ys.take(j as int), dx as int, dy as int)),
                decreases ys.len() - j,
            {
                let y = y_iter[j];
                proof {
                    assert(ys.take(j + 1).drop_last() =~= ys.take(j as int));
                    assert(ys.take(j + 1).last() == ys[j as int]);
                    lemma_visit_keeps(self@, x as int, y as int, dx as int, dy as int);
                    lemma_count_bounds(self@);
                }
                if let Object::Block(number) = self.0[x][y] {
                    let (score, moved) = self.slide_tile(number, x, y, dx, dy);
                    proof {
                        lemma_count_bounds(self@);
                    }
                    delta_score = delta_score + score;
                    if moved {
                        should_spawn_new_block = true;
                    }
                }
                j = j + 1;
            }
            proof {
                assert(ys.take(ys.len() as int) =~= ys);
                assert(xs.take(i + 1).drop_last() =~= xs.take(i as int));
                assert(xs.take(i + 1).last() == xs[i as int]);
            }
            i = i + 1;
        }
        proof {
            assert(xs.take(xs.len() as int) =~= xs);
        }
        (delta_score, should_spawn_new_block)
    }

    /// A board with two tiles of value two on distinct random cells.
    pub fn new() -> (r: Self)
        ensures
            movable(r@),
            exists|x1: int, y1: int, x2: int, y2: int|
                in_bounds(x1, y1) && in_bounds(x2, y2) && (x1 != x2 || y1 != y2) && r@ == put(
                    put(empty_board(), x1, y1, Object::Block(2)),
                    x2,
                    y2,
                    Object::Block(2),
                ),
    {
        let mut grid = Grid([[Object::default(); GRID_HEIGHT]; GRID_WIDTH]);
        assert(grid@ =~~= empty_board());
        proof {
            lemma_empty_board();
            lemma_empty_cells_full(grid@);
        }
        let first = grid.place_block(2);
        let ghost b1 = grid@;
        proof {
            assert(first is Ok);
            let (x, y) = choose|x: int, y: int|
                in_bounds(x, y) && empty_board()[x][y] == Object::Empty && b1 == put(empty_board(), x, y, Object::Block(2));
            lemma_put(empty_board(), x, y, Object::Block(2));
            lemma_small_pow2();
            assert(valid_object(Object::Block(2)));
            assert(valid_board(b1));
            let (x2, y2) = if x == 0 && y == 0 { (0int, 1int) } else { (0int, 0int) };
            assert(b1[x2][y2] == Object::Empty);
            lemma_empty_cells_full(b1);
        }
        let second = grid.place_block(2);
        proof {
            assert(second is Ok);
            let (x, y) = choose|x: int, y: int|
                in_bounds(x, y) && b1[x][y] == Object::Empty && grid@ == put(b1, x, y, Object::Block(2));
            lemma_put(b1, x, y, Object::Block(2));
            lemma_small_pow2();
            assert(valid_object(Object::Block(2)));
            assert(valid_board(grid@));
        }
        grid
    }

    /// The number of empty cells.
    pub fn empty_count(&self) -> (r: usize)
        ensures
            r == empty_cells(self@).len(),
    {
        let mut seen: usize = 0;
        let mut k: usize = 0;
        while k < GRID_WIDTH * GRID_HEIGHT
            invariant
                k <= GRID_WIDTH * GRID_HEIGHT,
                seen == empties_upto(self@, k as int).len(),
                seen <= k,
            decreases GRID_WIDTH * GRID_HEIGHT - k,
        {
            if self.0[k / GRID_HEIGHT][k % GRID_HEIGHT] == Object::Empty {
                seen = seen + 1;
            }
            k = k + 1;
        }
        seen
    }

    /// Places a tile of value `num` on the `n`-th empty cell in row-major
    /// order.
    pub fn place_block_nth(&mut self, num: i16, n: usize)
        requires
            n < empty_cells(old(self)@).len(),
        ensures
            final(self)@ == put(
                old(self)@,
                empty_cells(old(self)@)[n as int].0,
                empty_cells(old(self)@)[n as int].1,
                Object::Block(num),
            ),
    {
        let ghost b = self@;
        let mut seen: usize = 0;
        let mut k: usize = 0;
        while k < GRID_WIDTH * GRID_HEIGHT
            invariant
                self@ == b,
                b == old(self)@,
                n < empty_cells(b).len(),
                k <= GRID_WIDTH * GRID_HEIGHT,
                seen == empties_upto(b, k as int).len(),
                seen <= n,
            decreases GRID_WIDTH * GRID_HEIGHT - k,
        {
            let x = k / GRID_HEIGHT;
            let y = k % GRID_HEIGHT;
            if self.0[x][y] == Object::Empty {
                if seen == n {
                    proof {
                        lemma_empties_prefix(b, k + 1, (GRID_WIDTH * GRID_HEIGHT) as int);
                        assert(empties_upto(b, k + 1)[n as int] == (x as int, y as int));
                        assert(empty_cells(b)[n as int] == (x as int, y as int));
                    }
                    self.set_cell(x, y, Object::Block(num));
                    return;
                }
                seen = seen + 1;
            }
            k = k + 1;
        }
        proof {
            assert(seen == empty_cells(b).len());
        }
    }

    /// Places a tile of value `num` on a random empty cell, or fails when no
    /// cell is empty.
    pub fn place_block(&mut self, num: i16) -> (r: Result<(), ()>)
        ensures
            r is Err <==> is_full(old(self)@),
            r is Err ==> final(self)@ == old(self)@,
            r is Ok ==> exists|x: int, y: int|
                in_bounds(x, y) && old(self)@[x][y] == Object::Empty && final(self)@ == put(old(self)@, x, y, Object::Block(num)),
    {
        proof {
            lemma_empty_cells_full(self@);
        }
        let free = self.empty_count();
        if free == 0 {
            return Err(());
        }
        let n = random_below(free);
        let ghost p = empty_cells(self@)[n as int];
        self.place_block_nth(num, n);
        assert(in_bounds(p.0, p.1) && old(self)@[p.0][p.1] == Object::Empty);
        Ok(())
    }

    /// Places a tile on a random empty cell: four with chance one in nine,
    /// two otherwise. Fails when no cell is empty, which ends the game.
    pub fn new_rand_block(&mut self) -> (r: Result<(), ()>)
        ensures
            r is Err <==> is_full(old(self)@),
            r is Err ==> final(self)@ == old(self)@,
            r is Ok ==> exists|x: int, y: int, v: i16|
                in_bounds(x, y) && old(self)@[x][y] == Object::Empty && (v == 2 || v == 4)
                    && final(self)@ == put(old(self)@, x, y, Object::Block(v)),
    {
        let block_number: i16 = if random_ratio(1, 9) {
            4
        } else {
            2
        };
        self.place_block(block_number)
    }

    /// The sum of the values of all tiles.
    pub fn total_value(&self) -> (r: i32)
        requires
            valid_board(self@),
        ensures
            r == total(self@),
    {
        let ghost b = self@;
        let mut sum: i32 = 0;
        let mut x: usize = 0;
        while x < GRID_WIDTH
            invariant
                b == self@,
                valid_board(b),
                x <= GRID_WIDTH,
                sum == board_sum(b.take(x as int), |o: Object| value_of(o)),
                0 <= sum <= x * GRID_HEIGHT * MAX_TILE,
            decreases GRID_WIDTH - x,
        {
            let mut y: usize = 0;
            let ghost before = sum;
            while y < GRID_HEIGHT
                invariant
                    b == self@,
                    valid_board(b),
                    x < GRID_WIDTH,
                    y <= GRID_HEIGHT,
                    sum == before + row_sum(b[x as int].take(y as int), |o: Object| value_of(o)),
                    0 <= before <= x * GRID_HEIGHT * MAX_TILE,
                    before <= sum <= before + y * MAX_TILE,
                decreases GRID_HEIGHT - y,
            {
                proof {
                    assert(b[x as int].take(y + 1).drop_last() =~= b[x as int].take(y as int));
                    assert(valid_object(b[x as int][y as int]));
                }
                if let Object::Block(v) = self.0[x][y] {
                    sum = sum + v as i32;
                }
                y = y + 1;
            }
            proof {
                assert(b[x as int].take(GRID_HEIGHT as int) =~= b[x as int]);
                assert(b.take(x + 1).drop_last() =~= b.take(x as int));
            }
            x = x + 1;
        }
        proof {
            assert(b.take(GRID_WIDTH as int) =~= b);
        }
        sum
    }


    /// The board drawn with box-drawing characters: a frame of cells
    /// `CELL_WIDTH` wide, each row of cells three lines tall with the numbers
    /// in the middle line.
    pub fn to_string(&self) -> (r: String)
        ensures
            r@ == grid_text(self@),
    {
        let mut response = String::new();
        push_rule(&mut response, "┌", "┬", "┐");
        let mut x: usize = 0;
        while x < GRID_WIDTH
            invariant
                x <= GRID_WIDTH,
                response@ == rule_line("┌"@, "┬"@, "┐"@) + rows_text(self@, x as int),
            decreases GRID_WIDTH - x,
        {
            let ghost before = response@;
            response.append("\n│");
            push_repeat(&mut response, "        │", GRID_HEIGHT);
            response.append("\n│");
            let mut y: usize = 0;
            let ghost mid = response@;
            while y < GRID_HEIGHT
                invariant
                    x < GRID_WIDTH,
                    y <= GRID_HEIGHT,
                    response@ == mid + cells_text(self@[x as int], y as int),
                decreases GRID_HEIGHT - y,
            {
                response.append(self.0[x][y].fmt_width(CELL_WIDTH).as_str());
                y = y + 1;
                assert(response@ =~= mid + cells_text(self@[x as int], y as int));
            }
            response.append("\n│");
            push_repeat(&mut response, "        │", GRID_HEIGHT);
            if x != GRID_WIDTH - 1 {
                response.append("\n");
                push_rule(&mut response, "├", "┼", "┤");
            }
            assert(response@ =~= before + row_text(self@[x as int], x as int));
            x = x + 1;
            assert(response@ =~= rule_line("┌"@, "┬"@, "┐"@) + rows_text(self@, x as int));
        }
        response.append("\n");
        push_rule(&mut response, "└", "┴", "┘");
        response
    }

    /// The board drawn for the terminal: each cell as a box of its colour
    /// placed by cursor moves, with a line break after each row.
    pub fn render(&self) -> (r: String)
        ensures
            r@ == render_rows(self@, GRID_WIDTH as int),
    {
        let mut response = String::new();
        let mut x: usize = 0;
        while x < GRID_WIDTH
            invariant
                x <= GRID_WIDTH,
                response@ == render_rows(self@, x as int),
            decreases GRID_WIDTH - x,
        {
            let write_x: i32 = BOX_HEIGHT * (x as i32 + 1) + OFFSET;
            let ghost before = response@;
            let mut y: usize = 0;
            while y < GRID_HEIGHT
                invariant
                    x < GRID_WIDTH,
                    y <= GRID_HEIGHT,
                    write_x == BOX_HEIGHT * (x + 1) + OFFSET,
                    response@ == before + render_cells(self@[x as int], x as int, y as int),
                decreases GRID_HEIGHT - y,
            {
                let write_y: i32 = BOX_WIDTH * (y as i32 + 1);
                let mut piece = String::new();
                piece.append("\x1B[");
                push_decimal(&mut piece, write_x);
                piece.append(";");
                push_decimal(&mut piece, write_y);
                piece.append("H");
                piece.append(self.0[x][y].write_box(write_x, write_y).as_str());
                if y == GRID_HEIGHT - 1 {
                    piece.append("\n");
                }
                assert(piece@ =~= render_cell(self@[x as int][y as int], x as int, y as int));
                response.append(piece.as_str());
                y = y + 1;
                assert(response@ =~= before + render_cells(self@[x as int], x as int, y as int));
            }
            x = x + 1;
        }
        response
    }

    /// Every cell with its coordinates, in row-major order.
    pub fn cells(&self) -> (r: Vec<(usize, usize, Object)>)
        ensures
            r@.len() == GRID_WIDTH * GRID_HEIGHT,
            forall|k: int|
                0 <= k < r@.len() ==> #[trigger] r@[k] == (
                    nth_cell(k).0 as usize,
                    nth_cell(k).1 as usize,
                    self@[nth_cell(k).0][nth_cell(k).1],
                ),
    {
        let mut r: Vec<(usize, usize, Object)> = Vec::new();
        let mut k: usize = 0;
        while k < GRID_WIDTH * GRID_HEIGHT
            invariant
                k <= GRID_WIDTH * GRID_HEIGHT,
                r@.len() == k,
                forall|i: int|
                    0 <= i < k ==> #[trigger] r@[i] == (
                        nth_cell(i).0 as usize,
                        nth_cell(i).1 as usize,
                        self@[nth_cell(i).0][nth_cell(i).1],
                    ),
            decreases GRID_WIDTH * GRID_HEIGHT - k,
        {
            let x = k / GRID_HEIGHT;
            let y = k % GRID_HEIGHT;
            r.push((x, y, self.0[x][y]));
            k = k + 1;
        }
        r
    }
}

/// The width of a cell in the framed drawing.
pub const CELL_WIDTH: usize = 8;

/// How many terminal rows the terminal drawing leaves above the board.
pub const OFFSET: i32 = 6;

/// A horizontal rule of the frame: `left`, then a run of `─` for each cell
/// with `mid` between cells, then `right`.
pub open spec fn rule_line(left: Seq<char>, mid: Seq<char>, right: Seq<char>) -> Seq<char> {
    let run = repeat("─"@, CELL_WIDTH as nat);
    left + repeat(run + mid, (GRID_HEIGHT - 1) as nat) + run + right
}

/// The contents of the first `k` cells of a row, side by side.
pub open spec fn cells_text(r: Seq<Object>, k: int) -> Seq<char>
    decreases k,
{
    if k <= 0 {
        Seq::empty()
    } else {
        cells_text(r, k - 1) + width_text(r[k - 1], CELL_WIDTH as nat)
    }
}

/// Row `x` of the framed drawing: a blank line, the numbers, a blank line,
/// and a rule below every row but the last.
pub open spec fn row_text(r: Seq<Object>, x: int) -> Seq<char> {
    let blank = "\n│"@ + repeat("        │"@, GRID_HEIGHT as nat);
    blank + "\n│"@ + cells_text(r, GRID_HEIGHT as int) + blank + if x != GRID_WIDTH - 1 {
        "\n"@ + rule_line("├"@, "┼"@, "┤"@)
    } else {
        Seq::empty()
    }
}

/// The first `k` rows of the framed drawing.
pub open spec fn rows_text(b: Board, k: int) -> Seq<char>
    decreases k,
{
    if k <= 0 {
        Seq::empty()
    } else {
        rows_text(b, k - 1) + row_text(b[k - 1], k - 1)
    }
}

/// The whole framed drawing of a board.
pub open spec fn grid_text(b: Board) -> Seq<char> {
    rule_line("┌"@, "┬"@, "┐"@) + rows_text(b, GRID_WIDTH as int) + "\n"@ + rule_line("└"@, "┴"@, "┘"@)
}

/// Cell `(x, y)` of the terminal drawing: a cursor move to where its box
/// starts, the box, and a line break after the last cell of the row.
pub open spec fn render_cell(o: Object, x: int, y: int) -> Seq<char> {
    let wx = BOX_HEIGHT * (x + 1) + OFFSET;
    let wy = BOX_WIDTH * (y + 1);
    cursor_to(wx, wy) + box_text(o, BOX_HEIGHT + 1, wx, wy) + if y == GRID_HEIGHT - 1 {
        "\n"@
    } else {
        Seq::empty()
    }
}

/// The first `k` cells of row `x` of the terminal drawing.
pub open spec fn render_cells(r: Seq<Object>, x: int, k: int) -> Seq<char>
    decreases k,
{
    if k <= 0 {
        Seq::empty()
    } else {
        render_cells(r, x, k - 1) + render_cell(r[k - 1], x, k - 1)
    }
}

/// The first `k` rows of the terminal drawing.
pub open spec fn render_rows(b: Board, k: int) -> Seq<char>
    decreases k,
{
    if k <= 0 {
        Seq::empty()
    } else {
        render_rows(b, k - 1) + render_cells(b[k - 1], k - 1, GRID_HEIGHT as int)
    }
}

/// Appends a horizontal rule of the frame.
fn push_rule(s: &mut String, left: &str, mid: &str, right: &str)
    ensures
        final(s)@ == old(s)@ + rule_line(left@, mid@, right@),
{
    let mut run = String::new();
    push_repeat(&mut run, "─", CELL_WIDTH);
    let mut piece = run.clone();
    piece.append(mid);
    s.append(left);
    push_repeat(s, piece.as_str(), GRID_HEIGHT - 1);
    s.append(run.as_str());
    s.append(right);
    assert(final(s)@ =~= old(s)@ + rule_line(left@, mid@, right@));
}

} // verus!
