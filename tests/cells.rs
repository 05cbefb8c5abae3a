use slide2048::grid::Grid;
use slide2048::object::{Object, TileColor};
use slide2048::text::push_decimal;

const E: Object = Object::Empty;

fn tiles(g: &Grid) -> Vec<(usize, usize, Object)> {
    let mut v = Vec::new();
    for x in 0..4 {
        for y in 0..4 {
            if let Some(Object::Block(n)) = g.obj_at(x, y) {
                v.push((x, y, Object::Block(n)));
            }
        }
    }
    v
}

#[test]
fn out_of_bounds_cells_are_absent() {
    let g = Grid([[Object::Block(2); 4]; 4]);
    for i in 0..4 {
        assert_eq!(g.obj_at(4, i), None);
        assert_eq!(g.obj_at(i, 4), None);
        assert_eq!(g.obj_at(usize::MAX, i), None);
        assert_eq!(g.obj_at(i, usize::MAX), None);
        assert_eq!(g.block_at(3, i, 1, 0), E);
        assert_eq!(g.block_at(i, 3, 0, 1), E);
        assert_eq!(g.block_at(i, 0, 0, usize::MAX), E);
        assert_eq!(g.block_at(0, i, usize::MAX, 0), E);
        assert_eq!(g.obj_at(3, i), Some(Object::Block(2)));
        assert_eq!(g.block_at(2, i, 1, 0), Object::Block(2));
    }
}

#[test]
fn is_block_reports_tiles() {
    let mut cells = [[E; 4]; 4];
    cells[1][2] = Object::Block(8);
    let g = Grid(cells);
    assert!(g.is_block(1, 2));
    assert!(!g.is_block(2, 1));
}

#[test]
fn new_board_has_two_twos() {
    for _ in 0..50 {
        let g = Grid::new();
        let t = tiles(&g);
        assert_eq!(t.len(), 2);
        assert!(t.iter().all(|c| c.2 == Object::Block(2)));
        assert_eq!(g.total_value(), 4);
    }
}

#[test]
fn place_block_nth_uses_row_major_order() {
    let mut cells = [[E; 4]; 4];
    cells[0][0] = Object::Block(2);
    cells[0][2] = Object::Block(4);
    let mut g = Grid(cells);
    assert_eq!(g.empty_count(), 14);
    g.place_block_nth(8, 1);
    assert_eq!(g.0[0][3], Object::Block(8));
    g.place_block_nth(16, 0);
    assert_eq!(g.0[0][1], Object::Block(16));
    g.place_block_nth(32, 11);
    assert_eq!(g.0[3][3], Object::Block(32));
    assert_eq!(g.empty_count(), 11);
}

#[test]
fn place_block_fills_the_last_empty_cell() {
    let mut cells = [[Object::Block(2); 4]; 4];
    cells[2][1] = E;
    let mut g = Grid(cells);
    assert_eq!(g.place_block(4), Ok(()));
    assert_eq!(g.0[2][1], Object::Block(4));
    assert_eq!(g.place_block(4), Err(()));
    assert_eq!(g.new_rand_block(), Err(()));
}

#[test]
fn spawn_values_follow_one_in_nine() {
    let runs = 18000;
    let mut fours = 0;
    for _ in 0..runs {
        let mut g = Grid([[E; 4]; 4]);
        assert_eq!(g.new_rand_block(), Ok(()));
        let t = tiles(&g);
        assert_eq!(t.len(), 1);
        match t[0].2 {
            Object::Block(4) => fours += 1,
            Object::Block(2) => {}
            other => panic!("unexpected tile {:?}", other),
        }
    }
    let share = fours as f64 / runs as f64;
    assert!((share - 1.0 / 9.0).abs() < 0.02, "share of fours {}", share);
}

#[test]
fn spawn_lands_on_every_cell() {
    let mut seen = [[false; 4]; 4];
    for _ in 0..2000 {
        let mut g = Grid([[E; 4]; 4]);
        g.place_block(2).unwrap();
        let t = tiles(&g);
        seen[t[0].0][t[0].1] = true;
    }
    assert!(seen.iter().all(|r| r.iter().all(|c| *c)));
}

#[test]
fn default_object_is_empty() {
    assert_eq!(Object::default(), E);
}

#[test]
fn colors_by_value() {
    assert_eq!(Object::Block(2).color(), TileColor::Rgb(255, 80, 0));
    assert_eq!(Object::Block(64).color(), TileColor::Rgb(0, 128, 0));
    assert_eq!(Object::Block(2048).color(), TileColor::Rgb(230, 110, 210));
    assert_eq!(Object::Block(4096).color(), TileColor::Rgb(255, 150, 200));
    assert_eq!(E.color(), TileColor::White);
}

#[test]
fn decimal_text() {
    let mut s = String::from("n=");
    push_decimal(&mut s, 0);
    push_decimal(&mut s, -2147483648);
    push_decimal(&mut s, 1024);
    assert_eq!(s, "n=0-21474836481024");
}

#[test]
fn fmt_width_centres_painted_number() {
    let painted = ansi_term::Colour::RGB(255, 80, 0).paint("2").to_string();
    assert_eq!(Object::Block(2).fmt_width(8), format!("   {}    ", painted));
    let painted = ansi_term::Colour::RGB(75, 0, 130).paint("1024").to_string();
    assert_eq!(Object::Block(1024).fmt_width(8), format!("  {}  ", painted));
    assert_eq!(Object::Block(1024).fmt_width(3), painted);
    assert_eq!(E.fmt_width(8), "        ");
    assert_eq!(E.fmt_width(0), "");
}

#[test]
fn write_box_draws_rows_and_moves_cursor() {
    let c = ansi_term::Colour::RGB(255, 165, 0);
    let bar = c.paint("│").to_string();
    let run = c.paint("─".repeat(8)).to_string();
    let blank = format!("{}        {}", bar, bar);
    let number = format!("{}   {}    {}", bar, c.paint("4"), bar);
    let expected = format!(
        "{blank}\x1B[7;3H{}{run}{}\x1B[8;3H{blank}\x1B[9;3H{number}\x1B[10;3H{blank}\x1B[11;3H{}{run}{}\x1B[12;3H",
        c.paint("┌"),
        c.paint("┐"),
        c.paint("└"),
        c.paint("┘"),
    );
    assert_eq!(Object::Block(4).write_box(7, 3), expected);
}

#[test]
fn framed_drawing_of_a_board() {
    let mut cells = [[E; 4]; 4];
    cells[3][0] = Object::Block(16);
    let g = Grid(cells);
    let run = "─".repeat(8);
    let blank = format!("\n│{}", "        │".repeat(4));
    let sep = format!("\n├{r}┼{r}┼{r}┼{r}┤", r = run);
    let empty_row = format!("{blank}\n│{}{blank}", " ".repeat(32));
    let sixteen = format!("   {}   ", ansi_term::Colour::RGB(255, 255, 0).paint("16"));
    let last_row = format!("{blank}\n│{}{}{blank}", sixteen, " ".repeat(24));
    let expected = format!(
        "┌{r}┬{r}┬{r}┬{r}┐{empty_row}{sep}{empty_row}{sep}{empty_row}{sep}{last_row}\n└{r}┴{r}┴{r}┴{r}┘",
        r = run
    );
    assert_eq!(g.to_string(), expected);
}

#[test]
fn terminal_drawing_places_boxes() {
    let mut cells = [[E; 4]; 4];
    cells[0][1] = Object::Block(2);
    let g = Grid(cells);
    let mut expected = String::new();
    for x in 0..4 {
        for y in 0..4 {
            let wx = 5 * (x as i32 + 1) + 6;
            let wy = 10 * (y as i32 + 1);
            expected.push_str(&format!("\x1B[{};{}H", wx, wy));
            expected.push_str(&cells[x][y].write_box(wx, wy));
            if y == 3 {
                expected.push('\n');
            }
        }
    }
    let r = g.render();
    assert!(r.starts_with("\x1B[11;10H"));
    assert_eq!(r, expected);
}

#[test]
fn cells_in_row_major_order() {
    let mut cells = [[E; 4]; 4];
    cells[2][3] = Object::Block(64);
    let g = Grid(cells);
    let listed = g.cells();
    assert_eq!(listed.len(), 16);
    assert_eq!(listed[0], (0, 0, E));
    assert_eq!(listed[5], (1, 1, E));
    assert_eq!(listed[11], (2, 3, Object::Block(64)));
    assert_eq!(listed[15], (3, 3, E));
}
