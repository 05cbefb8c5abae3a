use slide2048::game::{Direction, Game, Status};
use slide2048::grid::Grid;
use slide2048::object::Object;

const E: Object = Object::Empty;

fn b(n: i16) -> Object {
    Object::Block(n)
}

fn grid_with_row(row: [Object; 4]) -> Grid {
    Grid([row, [E; 4], [E; 4], [E; 4]])
}

fn occupied(g: &Grid) -> usize {
    let mut n = 0;
    for x in 0..4 {
        for y in 0..4 {
            if g.is_block(x, y) {
                n += 1;
            }
        }
    }
    n
}

#[test]
fn no_double_merge() {
    let mut g = Game { score: 0, map: grid_with_row([b(2), b(2), b(2), b(2)]) };
    let (delta, moved) = g.update_movement(Direction::Right);
    assert_eq!(g.map.0[0], [E, E, b(4), b(4)]);
    assert_eq!(delta, 8);
    assert!(moved);
}

#[test]
fn no_double_merge_toward_left() {
    let mut g = Game { score: 0, map: grid_with_row([b(2), b(2), b(2), b(2)]) };
    let (delta, moved) = g.update_movement(Direction::Left);
    assert_eq!(g.map.0[0], [b(4), b(4), E, E]);
    assert_eq!(delta, 8);
    assert!(moved);
}

#[test]
fn single_pair_precedence() {
    let mut g = Game { score: 0, map: grid_with_row([b(2), b(2), b(2), E]) };
    let (delta, moved) = g.update_movement(Direction::Right);
    assert_eq!(g.map.0[0], [E, E, b(2), b(4)]);
    assert_eq!(delta, 4);
    assert!(moved);
}

#[test]
fn blocked_line_is_unchanged() {
    let mut g = Game { score: 0, map: grid_with_row([b(2), b(4), b(8), b(16)]) };
    let (delta, moved) = g.update_movement(Direction::Right);
    assert_eq!(g.map.0[0], [b(2), b(4), b(8), b(16)]);
    assert_eq!(delta, 0);
    assert!(!moved);
    let (delta, moved) = g.update_movement(Direction::Left);
    assert_eq!(g.map.0[0], [b(2), b(4), b(8), b(16)]);
    assert_eq!(delta, 0);
    assert!(!moved);
}

#[test]
fn step_without_change_spawns_nothing() {
    let mut g = Game { score: 10, map: grid_with_row([b(2), b(4), b(8), b(16)]) };
    let before = g.map.0;
    let status = g.step(Direction::Up);
    assert_eq!(status, Status::Playing);
    assert_eq!(g.map.0, before);
    assert_eq!(occupied(&g.map), 4);
    assert_eq!(g.score, 10);
}

#[test]
fn step_with_change_spawns_one_tile() {
    let mut g = Game { score: 10, map: grid_with_row([b(2), b(2), E, E]) };
    let status = g.step(Direction::Left);
    assert_eq!(status, Status::Playing);
    assert_eq!(g.score, 14);
    assert_eq!(g.map.0[0][0], b(4));
    assert_eq!(occupied(&g.map), 2);
    let spawned = g.map.total_value() - 4;
    assert!(spawned == 2 || spawned == 4);
}

fn checkerboard() -> Grid {
    Grid([
        [b(2), b(4), b(2), b(4)],
        [b(4), b(2), b(4), b(2)],
        [b(2), b(4), b(2), b(4)],
        [b(4), b(2), b(4), b(2)],
    ])
}

#[test]
fn full_board_without_pairs_is_lost() {
    for dir in [Direction::Up, Direction::Down, Direction::Left, Direction::Right] {
        let mut g = Game { score: 0, map: checkerboard() };
        let (delta, moved) = g.update_movement(dir);
        assert_eq!(delta, 0);
        assert!(!moved);
        assert_eq!(g.map.0, checkerboard().0);
        assert_eq!(g.map.new_rand_block(), Err(()));
        assert_eq!(g.map.place_block(2), Err(()));
        assert_eq!(g.map.0, checkerboard().0);
        assert_eq!(g.step(dir), Status::Playing);
    }
}

#[test]
fn moves_up_and_down_along_a_column() {
    let col = Grid([[b(2), E, E, E], [E; 4], [b(2), E, E, E], [b(8), E, E, E]]);
    let mut g = Game { score: 0, map: Grid(col.0) };
    let (delta, moved) = g.update_movement(Direction::Up);
    assert_eq!(delta, 4);
    assert!(moved);
    assert_eq!([g.map.0[0][0], g.map.0[1][0], g.map.0[2][0], g.map.0[3][0]], [b(4), b(8), E, E]);
    let mut g = Game { score: 0, map: Grid(col.0) };
    let (delta, moved) = g.update_movement(Direction::Down);
    assert_eq!(delta, 4);
    assert!(moved);
    assert_eq!([g.map.0[0][0], g.map.0[1][0], g.map.0[2][0], g.map.0[3][0]], [E, E, b(4), b(8)]);
}

#[test]
fn move_keeps_mass() {
    let cells = [
        [b(2), b(2), b(4), E],
        [b(8), E, b(8), b(2)],
        [E, b(4), b(4), b(4)],
        [b(16), b(16), b(2), b(2)],
    ];
    for dir in [Direction::Up, Direction::Down, Direction::Left, Direction::Right] {
        let mut g = Game { score: 0, map: Grid(cells) };
        let before = g.map.total_value();
        let (_, moved) = g.update_movement(dir);
        assert!(moved);
        assert_eq!(g.map.total_value(), before);
        assert_eq!(before, 74);
    }
}

#[test]
fn mov_dir_with_explicit_orders() {
    let mut g = grid_with_row([E, b(2), E, b(2)]);
    let (delta, moved) = g.mov_dir(&[0, 1, 2, 3], &[0, 1, 2, 3], 0, -1);
    assert_eq!(g.0[0], [b(4), E, E, E]);
    assert_eq!(delta, 4);
    assert!(moved);
}

#[test]
fn score_accumulates_over_steps() {
    let mut g = Game { score: 0, map: grid_with_row([b(4), b(4), b(2), E]) };
    assert_eq!(g.step(Direction::Left), Status::Playing);
    assert_eq!(g.score, 8);
    assert_eq!(g.map.0[0][0], b(8));
    assert_eq!(g.map.0[0][1], b(2));
    let mut g = Game { score: 5, map: grid_with_row([E, E, b(2), b(2)]) };
    assert_eq!(g.step(Direction::Right), Status::Playing);
    assert_eq!(g.score, 9);
}
