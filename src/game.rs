//! The game session: a board, a running score, and the rule that a tile
//! is spawned after each move that changed the board.
use vstd::prelude::*;
use crate::board::{
    Board, GRID_HEIGHT, GRID_WIDTH, MAX_TILE, count, empty_board, in_bounds, is_full, keeps, movable, pass,
    put, lemma_count_bounds, total, valid_xs, valid_ys, is_unit_step, lemma_pass_keeps, blocked,
    lemma_blocked_pass, no_equal_neighbours, lemma_full_is_blocked,
};
use crate::grid::Grid;
use crate::object::Object;

verus! {

/// The most score a single move can earn: one merge per tile, each at most
/// the largest tile value.
pub const MAX_MOVE_SCORE: i32 = 524272;

/// A direction of a move.
#[derive(Clone, Copy, Debug, PartialEq, Eq, Structural)]
pub enum Direction {
    Up,
    Down,
    Left,
    Right,
}

/// Where a session stands after a move.
#[derive(Clone, Copy, Debug, PartialEq, Eq, Structural)]
pub enum Status {
    Playing,
    /// No empty cell was left for the tile that the move asked for.
    Lost,
}

pub open spec fn ascending() -> Seq<usize> {
    seq![0usize, 1, 2, 3]
}

pub open spec fn descending() -> Seq<usize> {
    seq![3usize, 2, 1, 0]
}

/// The order in which a move in direction `d` visits the rows, the order in
/// which it visits the cells of each row, and the step it pulls tiles by.
/// Rows are scanned from the edge the tiles move toward.
pub open spec fn recipe(d: Direction) -> (Seq<usize>, Seq<usize>, int, int) {
    match d {
        Direction::Up => (ascending(), ascending(), -1, 0),
        Direction::Down => (descending(), ascending(), 1, 0),
        Direction::Left => (ascending(), ascending(), 0, -1),
        Direction::Right => (ascending(), descending(), 0, 1),
    }
}

/// The board after a move in direction `d`, the score it earned, and
/// whether any tile moved.
pub open spec fn move_board(b: Board, d: Direction) -> (Board, int, bool) {
    let (xs, ys, dx, dy) = recipe(d);
    pass(b, xs, ys, dx, dy)
}

/// The game: the running score and the board.
pub struct Game {
    pub score: i32,
    pub map: Grid,
}

impl Game {
    /// A session with score zero on a new board.
    pub fn new() -> (r: Self)
        ensures
            r.score == 0,
            movable(r.map@),
            exists|x1: int, y1: int, x2: int, y2: int|
                in_bounds(x1, y1) && in_bounds(x2, y2) && (x1 != x2 || y1 != y2) && r.map@ == put(
                    put(empty_board(), x1, y1, Object::Block(2)),
                    x2,
                    y2,
                    Object::Block(2),
                ),
    {
        Game { score: 0, map: Grid::new() }
    }

    /// Moves the board in direction `dir`; returns the score the move earned
    /// and whether any tile moved. The running score is left alone.
    pub fn update_movement(&mut self, dir: Direction) -> (r: (i32, bool))
        requires
            movable(old(self).map@),
        ensures
            (final(self).map@, r.0 as int, r.1) == move_board(old(self).map@, dir),
            keeps(old(self).map@, move_board(old(self).map@, dir)),
            movable(final(self).map@),
            final(self).score == old(self).score,
    {
        let asc: [usize; 4] = [0, 1, 2, 3];
        let desc: [usize; 4] = [3, 2, 1, 0];
        assert(asc@ =~= ascending());
        assert(desc@ =~= descending());
        match dir {
            Direction::Right => self.map.mov_dir(&asc, &desc, 0, 1),
            Direction::Left => self.map.mov_dir(&asc, &asc, 0, -1),
            Direction::Down => self.map.mov_dir(&desc, &asc, 1, 0),
            Direction::Up => self.map.mov_dir(&asc, &asc, -1, 0),
        }
    }

    /// Plays one move: the board moves in direction `dir`, the score grows by
    /// what the move earned, and if any tile moved a new tile is spawned. The
    /// game is lost when that tile finds no empty cell.
    pub fn step(&mut self, dir: Direction) -> (r: Status)
        requires
            movable(old(self).map@),
            0 <= old(self).score <= i32::MAX - MAX_MOVE_SCORE,
        ensures
            ({
                let (b1, s, moved) = move_board(old(self).map@, dir);
                &&& final(self).score == old(self).score + s
                &&& !moved ==> final(self).map@ == old(self).map@ && r == Status::Playing
                &&& moved ==> (r == Status::Lost <==> is_full(b1))
                &&& r == Status::Lost ==> final(self).map@ == b1
                &&& moved && r == Status::Playing ==> exists|x: int, y: int, v: i16|
                    in_bounds(x, y) && b1[x][y] == Object::Empty && (v == 2 || v == 4)
                        && final(self).map@ == put(b1, x, y, Object::Block(v))
            }),
    {
        proof {
            lemma_count_bounds(self.map@);
        }
        let (delta_score, should_spawn_block) = self.update_movement(dir);
        proof {
            lemma_count_bounds(self.map@);
            assert(count(old(self).map@) <= GRID_WIDTH * GRID_HEIGHT);
            assert(delta_score <= GRID_WIDTH * GRID_HEIGHT * MAX_TILE);
        }
        self.score = self.score + delta_score;
        if should_spawn_block {
            match self.map.new_rand_block() {
                Ok(()) => Status::Playing,
                Err(()) => Status::Lost,
            }
        } else {
            Status::Playing
        }
    }
}

/// Each direction visits only cells of the board and pulls by one cell
/// along one axis.
pub proof fn lemma_recipe(d: Direction)
    ensures
        valid_xs(recipe(d).0),
        valid_ys(recipe(d).1),
        is_unit_step(recipe(d).2, recipe(d).3),
{
}

/// A move keeps the mass of the board: each merge turns two tiles of value
/// `n` into one of value `2n`, so the sum of all tile values after the move
/// equals the sum before it.
pub proof fn lemma_move_keeps_mass(b: Board, d: Direction)
    requires
        movable(b),
    ensures
        total(move_board(b, d).0) == total(b),
{
    lemma_recipe(d);
    let (xs, ys, dx, dy) = recipe(d);
    lemma_pass_keeps(b, xs, ys, dx, dy);
}

/// A move that reports that no tile moved leaves the board exactly as it
/// was, so the number of tiles is unchanged and no tile is spawned.
pub proof fn lemma_unmoved_board_unchanged(b: Board, d: Direction)
    requires
        movable(b),
    ensures
        !move_board(b, d).2 ==> move_board(b, d).0 == b && count(move_board(b, d).0) == count(b),
{
    lemma_recipe(d);
    let (xs, ys, dx, dy) = recipe(d);
    lemma_pass_keeps(b, xs, ys, dx, dy);
}

/// On a board where no tile can slide or merge toward `d`, the move moves
/// nothing, earns nothing, and leaves the board as it was.
pub proof fn lemma_blocked_move(b: Board, d: Direction)
    requires
        blocked(b, recipe(d).2, recipe(d).3),
    ensures
        move_board(b, d) == (b, 0int, false),
{
    lemma_recipe(d);
    let (xs, ys, dx, dy) = recipe(d);
    lemma_blocked_pass(b, xs, ys, dx, dy);
}

/// A full board with no two equal neighbours is lost: no move changes it,
/// so the board stays full and the next spawn finds no empty cell.
pub proof fn lemma_full_board_is_lost(b: Board, d: Direction)
    requires
        is_full(b),
        no_equal_neighbours(b),
    ensures
        move_board(b, d) == (b, 0int, false),
        is_full(move_board(b, d).0),
{
    lemma_recipe(d);
    lemma_full_is_blocked(b, recipe(d).2, recipe(d).3);
    lemma_blocked_move(b, d);
}

} // verus!
