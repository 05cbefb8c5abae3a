use vstd::prelude::*;
use crate::text::{decimal, push_decimal, push_repeat, repeat, spaces};

verus! {

/// One cell of the board: a tile holding a number, or nothing.
#[derive(Clone, Copy, Debug, PartialEq, Eq, Structural)]
pub enum Object {
    /// A tile with its value, a power of two.
    Block(i16),
    Empty,
}

impl Default for Object {
    fn default() -> (r: Self)
        ensures
            r == Object::Empty,
    {
        Object::Empty
    }
}

/// What a tile adds to the board's mass.
pub open spec fn value_of(o: Object) -> int {
    match o {
        Object::Block(n) => n as int,
        Object::Empty => 0,
    }
}

/// One for a tile, zero for an empty cell.
pub open spec fn occupancy(o: Object) -> int {
    match o {
        Object::Block(_) => 1,
        Object::Empty => 0,
    }
}

pub open spec fn is_pow2(n: int) -> bool
    decreases n,
{
    if n <= 1 {
        n == 1
    } else {
        n % 2 == 0 && is_pow2(n / 2)
    }
}

/// An empty cell, or a tile whose value is a power of two no less than two.
pub open spec fn valid_object(o: Object) -> bool {
    match o {
        Object::Block(n) => n >= 2 && is_pow2(n as int),
        Object::Empty => true,
    }
}

pub proof fn lemma_double_pow2(n: int)
    requires
        n >= 1,
        is_pow2(n),
    ensures
        is_pow2(2 * n),
{
    assert((2 * n) / 2 == n);
}

/// Two and four, the values of new tiles, are powers of two.
pub proof fn lemma_small_pow2()
    ensures
        is_pow2(2),
        is_pow2(4),
{
    reveal_with_fuel(is_pow2, 3);
}

/// The colour a tile is drawn in.
#[derive(Clone, Copy, Debug, PartialEq, Eq, Structural)]
pub enum TileColor {
    /// A true colour: red, green and blue.
    Rgb(u8, u8, u8),
    White,
}

/// `text` wrapped in the terminal escape codes that draw it in colour `c`.
pub uninterp spec fn painted(c: TileColor, text: Seq<char>) -> Seq<char>;

/// Relies on `ansi_term::Colour::paint` and the `Display` of the painted
/// string: the text between the escape codes of the colour; the same colour
/// and text always give the same result.
#[verifier::external_body]
fn paint(c: TileColor, text: &str) -> (r: String)
    ensures
        r@ == painted(c, text@),
{
    let colour = match c {
        TileColor::Rgb(r, g, b) => ansi_term::Colour::RGB(r, g, b),
        TileColor::White => ansi_term::Colour::White,
    };
    colour.paint(text).to_string()
}

/// The width of a box inside its border.
pub const BOX_INNER_WIDTH: usize = 8;

/// The width of a box with its two corners.
pub const BOX_WIDTH: i32 = 10;

/// The height of a box.
pub const BOX_HEIGHT: i32 = 5;

/// The colour of each tile value; empty cells are white.
pub open spec fn color_of(o: Object) -> TileColor {
    match o {
        Object::Block(n) => if n == 2 {
            TileColor::Rgb(255, 80, 0)
        } else if n == 4 {
            TileColor::Rgb(255, 165, 0)
        } else if n == 8 {
            TileColor::Rgb(255, 200, 0)
        } else if n == 16 {
            TileColor::Rgb(255, 255, 0)
        } else if n == 32 {
            TileColor::Rgb(128, 200, 0)
        } else if n == 64 {
            TileColor::Rgb(0, 128, 0)
        } else if n == 128 {
            TileColor::Rgb(0, 85, 128)
        } else if n == 256 {
            TileColor::Rgb(0, 0, 255)
        } else if n == 512 {
            TileColor::Rgb(64, 0, 225)
        } else if n == 1024 {
            TileColor::Rgb(75, 0, 130)
        } else if n == 2048 {
            TileColor::Rgb(230, 110, 210)
        } else {
            TileColor::Rgb(255, 150, 200)
        },
        Object::Empty => TileColor::White,
    }
}

/// The spaces left and right of a text of `len` characters centred in
/// `width`; an odd space goes to the right.
pub open spec fn margins(width: nat, len: nat) -> (nat, nat) {
    let pad: nat = if width > len {
        (width - len) as nat
    } else {
        0
    };
    ((pad / 2) as nat, (pad - pad / 2) as nat)
}

/// A cell's content centred in `width`: the tile's painted number, or
/// blanks for an empty cell.
pub open spec fn width_text(o: Object, width: nat) -> Seq<char> {
    match o {
        Object::Block(n) => {
            let t = decimal(n as int);
            let (l, r) = margins(width, t.len());
            spaces(l) + painted(color_of(o), t) + spaces(r)
        },
        Object::Empty => spaces(width),
    }
}

/// Row `k` of a drawn box, without the cursor move that follows it.
pub open spec fn box_line(o: Object, k: int) -> Seq<char> {
    let c = color_of(o);
    if k == 1 {
        painted(c, "┌"@) + painted(c, repeat("─"@, BOX_INNER_WIDTH as nat)) + painted(c, "┐"@)
    } else if k == BOX_HEIGHT {
        painted(c, "└"@) + painted(c, repeat("─"@, BOX_INNER_WIDTH as nat)) + painted(c, "┘"@)
    } else {
        let inner = if k == (BOX_HEIGHT + 1) / 2 {
            o
        } else {
            Object::Empty
        };
        painted(c, "│"@) + width_text(inner, BOX_INNER_WIDTH as nat) + painted(c, "│"@)
    }
}

/// The escape code that puts the cursor on row `row`, column `col`.
pub open spec fn cursor_to(row: int, col: int) -> Seq<char> {
    "\x1B["@ + decimal(row) + ";"@ + decimal(col) + "H"@
}

/// The first `k` rows of a box drawn at `(x, y)`, each followed by a move of
/// the cursor to the start of the next.
pub open spec fn box_text(o: Object, k: int, x: int, y: int) -> Seq<char>
    decreases k,
{
    if k <= 0 {
        Seq::empty()
    } else {
        box_text(o, k - 1, x, y) + box_line(o, k - 1) + cursor_to(k - 1 + x, y)
    }
}

impl Object {
    /// The colour this cell is drawn in.
    pub fn color(&self) -> (r: TileColor)
        ensures
            r == color_of(*self),
    {
        match *self {
            Object::Block(num) => {
                if num == 2 {
                    TileColor::Rgb(255, 80, 0)
                } else if num == 4 {
                    TileColor::Rgb(255, 165, 0)
                } else if num == 8 {
                    TileColor::Rgb(255, 200, 0)
                } else if num == 16 {
                    TileColor::Rgb(255, 255, 0)
                } else if num == 32 {
                    TileColor::Rgb(128, 200, 0)
                } else if num == 64 {
                    TileColor::Rgb(0, 128, 0)
                } else if num == 128 {
                    TileColor::Rgb(0, 85, 128)
                } else if num == 256 {
                    TileColor::Rgb(0, 0, 255)
                } else if num == 512 {
                    TileColor::Rgb(64, 0, 225)
                } else if num == 1024 {
                    TileColor::Rgb(75, 0, 130)
                } else if num == 2048 {
                    TileColor::Rgb(230, 110, 210)
                } else {
                    TileColor::Rgb(255, 150, 200)
                }
            },
            Object::Empty => TileColor::White,
        }
    }

    /// The cell's number, painted in its colour and centred in `width`
    /// columns; blanks for an empty cell.
    pub fn fmt_width(&self, width: usize) -> (r: String)
        ensures
            r@ == width_text(*self, width as nat),
    {
        let mut response = String::new();
        match *self {
            Object::Block(number) => {
                let mut number_text = String::new();
                push_decimal(&mut number_text, number as i32);
                let len = number_text.as_str().unicode_len();
                let pad: usize = if width > len {
                    width - len
                } else {
                    0
                };
                push_repeat(&mut response, " ", pad / 2);
                let painted_number = paint(self.color(), number_text.as_str());
                response.append(painted_number.as_str());
                push_repeat(&mut response, " ", pad - pad / 2);
            },
            Object::Empty => {
                push_repeat(&mut response, " ", width);
            },
        }
        assert(response@ =~= width_text(*self, width as nat));
        response
    }

    /// Draws this cell as a box whose rows start at terminal row `x`,
    /// column `y`, moving the cursor after each row.
    pub fn write_box(&self, x: i32, y: i32) -> (r: String)
        requires
            x <= i32::MAX - BOX_HEIGHT,
        ensures
            r@ == box_text(*self, BOX_HEIGHT + 1, x as int, y as int),
    {
        let mut response = String::new();
        let color = self.color();
        let mut xx: i32 = 0;
        while xx < BOX_HEIGHT + 1
            invariant
                0 <= xx <= BOX_HEIGHT + 1,
                x <= i32::MAX - BOX_HEIGHT,
                color == color_of(*self),
                response@ == box_text(*self, xx as int, x as int, y as int),
            decreases BOX_HEIGHT + 1 - xx,
        {
            let mut line = String::new();
            if xx == 1 || xx == BOX_HEIGHT {
                let (lc, rc) = if xx == 1 {
                    ("┌", "┐")
                } else {
                    ("└", "┘")
                };
                let mut cnt = String::new();
                push_repeat(&mut cnt, "─", BOX_INNER_WIDTH);
                line.append(paint(color, lc).as_str());
                line.append(paint(color, cnt.as_str()).as_str());
                line.append(paint(color, rc).as_str());
            } else {
                let obj = if xx == (BOX_HEIGHT + 1) / 2 {
                    *self
                } else {
                    Object::Empty
                };
                let bar = paint(color, "│");
                line.append(bar.as_str());
                line.append(obj.fmt_width(BOX_INNER_WIDTH).as_str());
                line.append(bar.as_str());
            }
            assert(line@ =~= box_line(*self, xx as int));
            response.append(line.as_str());
            response.append("\x1B[");
            push_decimal(&mut response, xx + x);
            response.append(";");
            push_decimal(&mut response, y);
            response.append("H");
            xx = xx + 1;
            assert(response@ =~= box_text(*self, xx as int, x as int, y as int));
        }
        response
    }
}

} // verus!
