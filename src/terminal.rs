//! Terminal colors and ANSI escape sequences, built as strings.

use vstd::prelude::*;
use vstd::string::*;

verus! {

#[derive(Clone, Copy, Debug, PartialEq, Eq, Structural)]
pub enum Color {
    Black,
    Red,
    Green,
    Yellow,
    Blue,
    Magenta,
    Cyan,
    White,
    BrightBlack,
    BrightRed,
    BrightGreen,
    BrightYellow,
    BrightBlue,
    BrightMagenta,
    BrightCyan,
    BrightWhite,
    RGB(u8, u8, u8),
    Transparent,
}

pub open spec fn spec_is_bright(color: Color) -> bool {
    color is BrightBlack || color is BrightRed || color is BrightGreen || color is BrightYellow
        || color is BrightBlue || color is BrightMagenta || color is BrightCyan
        || color is BrightWhite
}

pub fn is_bright(color: Color) -> (r: bool)
    ensures
        r == spec_is_bright(color),
{
    match color {
        Color::BrightBlack | Color::BrightRed | Color::BrightGreen | Color::BrightYellow
        | Color::BrightBlue | Color::BrightMagenta | Color::BrightCyan | Color::BrightWhite => true,
        _ => false,
    }
}

/// The control sequence introducer, ESC `[`.
pub open spec fn csi() -> Seq<char> {
    seq!['\x1b', '[']
}

pub open spec fn digit_char(d: nat) -> char {
    if d == 0 {
        '0'
    } else if d == 1 {
        '1'
    } else if d == 2 {
        '2'
    } else if d == 3 {
        '3'
    } else if d == 4 {
        '4'
    } else if d == 5 {
        '5'
    } else if d == 6 {
        '6'
    } else if d == 7 {
        '7'
    } else if d == 8 {
        '8'
    } else {
        '9'
    }
}

/// Decimal digits of `n`, most significant first.
pub open spec fn decimal(n: nat) -> Seq<char>
    decreases n,
{
    if n < 10 {
        seq![digit_char(n)]
    } else {
        decimal(n / 10) + seq![digit_char(n % 10)]
    }
}

fn digit_str(d: usize) -> (r: &'static str)
    requires
        d < 10,
    ensures
        r@ == seq![digit_char(d as nat)],
{
    proof {
        reveal_strlit("0");
        reveal_strlit("1");
        reveal_strlit("2");
        reveal_strlit("3");
        reveal_strlit("4");
        reveal_strlit("5");
        reveal_strlit("6");
        reveal_strlit("7");
        reveal_strlit("8");
        reveal_strlit("9");
    }
    if d == 0 {
        "0"
    } else if d == 1 {
        "1"
    } else if d == 2 {
        "2"
    } else if d == 3 {
        "3"
    } else if d == 4 {
        "4"
    } else if d == 5 {
        "5"
    } else if d == 6 {
        "6"
    } else if d == 7 {
        "7"
    } else if d == 8 {
        "8"
    } else {
        "9"
    }
}

fn decimal_string(n: usize) -> (r: String)
    ensures
        r@ == decimal(n as nat),
    decreases n,
{
    if n < 10 {
        String::from_str(digit_str(n))
    } else {
        let mut s = decimal_string(n / 10);
        s.append(digit_str(n % 10));
        s
    }
}

fn prefix() -> (r: String)
    ensures
        r@ == csi(),
{
    proof {
        reveal_strlit("\x1b[");
    }
    String::from_str("\x1b[")
}

fn sequence(body: &str) -> (r: String)
    ensures
        r@ == csi() + body@,
{
    let mut s = prefix();
    s.append(body);
    s
}

pub fn clear_screen() -> (r: String)
    ensures
        r@ == csi() + "2J"@,
{
    sequence("2J")
}

pub fn use_alternate_screen_buffer() -> (r: String)
    ensures
        r@ == csi() + "?1049h"@,
{
    sequence("?1049h")
}

pub fn use_main_screen_buffer() -> (r: String)
    ensures
        r@ == csi() + "?1049l"@,
{
    sequence("?1049l")
}

/// Moves the cursor; rows and columns count from 1.
pub fn set_cursor_position(row: usize, column: usize) -> (r: String)
    requires
        row >= 1,
        column >= 1,
    ensures
        r@ == csi() + decimal(row as nat) + ";"@ + decimal(column as nat) + "H"@,
{
    let mut s = prefix();
    let row_digits = decimal_string(row);
    s.append(row_digits.as_str());
    s.append(";");
    let column_digits = decimal_string(column);
    s.append(column_digits.as_str());
    s.append("H");
    s
}

pub fn hide_cursor() -> (r: String)
    ensures
        r@ == csi() + "?25l"@,
{
    sequence("?25l")
}

pub fn show_cursor() -> (r: String)
    ensures
        r@ == csi() + "?25h"@,
{
    sequence("?25h")
}

/// The color's number in a select-graphic-rendition code, after the digit
/// that says foreground or background.
pub open spec fn color_code(color: Color) -> Seq<char> {
    match color {
        Color::Black | Color::BrightBlack => "0"@,
        Color::Red | Color::BrightRed => "1"@,
        Color::Green | Color::BrightGreen => "2"@,
        Color::Yellow | Color::BrightYellow => "3"@,
        Color::Blue | Color::BrightBlue => "4"@,
        Color::Magenta | Color::BrightMagenta => "5"@,
        Color::Cyan | Color::BrightCyan => "6"@,
        Color::White | Color::BrightWhite => "7"@,
        Color::RGB(r, g, b) => "8;2;"@ + decimal(r as nat) + ";"@ + decimal(g as nat) + ";"@
            + decimal(b as nat),
        Color::Transparent => Seq::empty(),
    }
}

fn color_str(color: Color) -> (r: String)
    requires
        !(color is Transparent),
    ensures
        r@ == color_code(color),
{
    match color {
        Color::Black | Color::BrightBlack => String::from_str("0"),
        Color::Red | Color::BrightRed => String::from_str("1"),
        Color::Green | Color::BrightGreen => String::from_str("2"),
        Color::Yellow | Color::BrightYellow => String::from_str("3"),
        Color::Blue | Color::BrightBlue => String::from_str("4"),
        Color::Magenta | Color::BrightMagenta => String::from_str("5"),
        Color::Cyan | Color::BrightCyan => String::from_str("6"),
        Color::White | Color::BrightWhite => String::from_str("7"),
        Color::RGB(r, g, b) => {
            let mut s = String::from_str("8;2;");
            let rd = decimal_string(r as usize);
            s.append(rd.as_str());
            s.append(";");
            let gd = decimal_string(g as usize);
            s.append(gd.as_str());
            s.append(";");
            let bd = decimal_string(b as usize);
            s.append(bd.as_str());
            s
        },
        Color::Transparent => String::new(),
    }
}

/// ESC `[` code `m`: a select-graphic-rendition sequence.
fn format_text(lead: &str, color: Color) -> (r: String)
    requires
        !(color is Transparent),
    ensures
        r@ == csi() + lead@ + color_code(color) + "m"@,
{
    let mut s = prefix();
    s.append(lead);
    let code = color_str(color);
    s.append(code.as_str());
    s.append("m");
    s
}

/// Foreground color: codes 30-37, 90-97 for bright colors, 38 for RGB.
pub fn set_foreground_color(color: Color) -> (r: String)
    requires
        !(color is Transparent),
    ensures
        r@ == csi() + (if spec_is_bright(color) {
            "9"@
        } else {
            "3"@
        }) + color_code(color) + "m"@,
{
    if is_bright(color) {
        format_text("9", color)
    } else {
        format_text("3", color)
    }
}

/// Background color: codes 40-47, 100-107 for bright colors, 48 for RGB.
pub fn set_background_color(color: Color) -> (r: String)
    requires
        !(color is Transparent),
    ensures
        r@ == csi() + (if spec_is_bright(color) {
            "10"@
        } else {
            "4"@
        }) + color_code(color) + "m"@,
{
    if is_bright(color) {
        format_text("10", color)
    } else {
        format_text("4", color)
    }
}

} // verus!
