//! The 5×7 bitmap font and the layout of scaled text on the screen.

use vstd::prelude::*;

verus! {

/// Width of a glyph in font pixels.
pub const GLYPH_W: u32 = 5;

/// Height of a glyph in font pixels.
pub const GLYPH_H: u32 = 7;

/// The rows of the glyph for `ch`, top row first; bit 4 of a row is its
/// leftmost column. Letters are drawn the same in either case; characters
/// outside the font have no glyph.
pub open spec fn glyph_table(ch: char) -> Option<[u8; 7]> {
    match ch {
        'A' | 'a' => Some([0b01110, 0b10001, 0b10001, 0b11111, 0b10001, 0b10001, 0b10001]),
        'B' | 'b' => Some([0b11110, 0b10001, 0b10001, 0b11110, 0b10001, 0b10001, 0b11110]),
        'C' | 'c' => Some([0b01110, 0b10001, 0b10000, 0b10000, 0b10000, 0b10001, 0b01110]),
        'D' | 'd' => Some([0b11110, 0b10001, 0b10001, 0b10001, 0b10001, 0b10001, 0b11110]),
        'E' | 'e' => Some([0b11111, 0b10000, 0b10000, 0b11110, 0b10000, 0b10000, 0b11111]),
        'F' | 'f' => Some([0b11111, 0b10000, 0b10000, 0b11110, 0b10000, 0b10000, 0b10000]),
        'G' | 'g' => Some([0b01110, 0b10001, 0b10000, 0b10011, 0b10001, 0b10001, 0b01110]),
        'H' | 'h' => Some([0b10001, 0b10001, 0b10001, 0b11111, 0b10001, 0b10001, 0b10001]),
        'I' | 'i' => Some([0b01110, 0b00100, 0b00100, 0b00100, 0b00100, 0b00100, 0b01110]),
        'J' | 'j' => Some([0b00001, 0b00001, 0b00001, 0b00001, 0b10001, 0b10001, 0b01110]),
        'K' | 'k' => Some([0b10001, 0b10010, 0b10100, 0b11000, 0b10100, 0b10010, 0b10001]),
        'L' | 'l' => Some([0b10000, 0b10000, 0b10000, 0b10000, 0b10000, 0b10000, 0b11111]),
        'M' | 'm' => Some([0b10001, 0b11011, 0b10101, 0b10001, 0b10001, 0b10001, 0b10001]),
        'N' | 'n' => Some([0b10001, 0b11001, 0b10101, 0b10011, 0b10001, 0b10001, 0b10001]),
        'O' | 'o' => Some([0b01110, 0b10001, 0b10001, 0b10001, 0b10001, 0b10001, 0b01110]),
        'P' | 'p' => Some([0b11110, 0b10001, 0b10001, 0b11110, 0b10000, 0b10000, 0b10000]),
        'Q' | 'q' => Some([0b01110, 0b10001, 0b10001, 0b10001, 0b10101, 0b10010, 0b01101]),
        'R' | 'r' => Some([0b11110, 0b10001, 0b10001, 0b11110, 0b10100, 0b10010, 0b10001]),
        'S' | 's' => Some([0b01111, 0b10000, 0b10000, 0b01110, 0b00001, 0b00001, 0b11110]),
        'T' | 't' => Some([0b11111, 0b00100, 0b00100, 0b00100, 0b00100, 0b00100, 0b00100]),
        'U' | 'u' => Some([0b10001, 0b10001, 0b10001, 0b10001, 0b10001, 0b10001, 0b01110]),
        'V' | 'v' => Some([0b10001, 0b10001, 0b10001, 0b10001, 0b10001, 0b01010, 0b00100]),
        'W' | 'w' => Some([0b10001, 0b10001, 0b10001, 0b10101, 0b10101, 0b11011, 0b10001]),
        'X' | 'x' => Some([0b10001, 0b10001, 0b01010, 0b00100, 0b01010, 0b10001, 0b10001]),
        'Y' | 'y' => Some([0b10001, 0b10001, 0b01010, 0b00100, 0b00100, 0b00100, 0b00100]),
        'Z' | 'z' => Some([0b11111, 0b00001, 0b00010, 0b00100, 0b01000, 0b10000, 0b11111]),
        '0' => Some([0b01110, 0b10001, 0b10011, 0b10101, 0b11001, 0b10001, 0b01110]),
        '1' => Some([0b00100, 0b01100, 0b00100, 0b00100, 0b00100, 0b00100, 0b01110]),
        '2' => Some([0b01110, 0b10001, 0b00001, 0b00010, 0b00100, 0b01000, 0b11111]),
        '3' => Some([0b01110, 0b10001, 0b00001, 0b01110, 0b00001, 0b10001, 0b01110]),
        '4' => Some([0b00010, 0b00110, 0b01010, 0b10010, 0b11111, 0b00010, 0b00010]),
        '5' => Some([0b11111, 0b10000, 0b11110, 0b00001, 0b00001, 0b10001, 0b01110]),
        '6' => Some([0b01110, 0b10000, 0b10000, 0b11110, 0b10001, 0b10001, 0b01110]),
        '7' => Some([0b11111, 0b00001, 0b00010, 0b00100, 0b00100, 0b00100, 0b00100]),
        '8' => Some([0b01110, 0b10001, 0b10001, 0b01110, 0b10001, 0b10001, 0b01110]),
        '9' => Some([0b01110, 0b10001, 0b10001, 0b01111, 0b00001, 0b00001, 0b01110]),
        ' ' => Some([0b00000, 0b00000, 0b00000, 0b00000, 0b00000, 0b00000, 0b00000]),
        '.' => Some([0b00000, 0b00000, 0b00000, 0b00000, 0b00000, 0b00110, 0b00110]),
        '!' => Some([0b00100, 0b00100, 0b00100, 0b00100, 0b00000, 0b00000, 0b00100]),
        '-' => Some([0b00000, 0b00000, 0b00000, 0b11111, 0b00000, 0b00000, 0b00000]),
        _ => None,
    }
}

/// The 5×7 glyph of `ch`, if the font has one.
pub fn glyph(ch: char) -> (rows: Option<[u8; 7]>)
    ensures
        rows == glyph_table(ch),
{
    match ch {
        'A' | 'a' => Some([0b01110, 0b10001, 0b10001, 0b11111, 0b10001, 0b10001, 0b10001]),
        'B' | 'b' => Some([0b11110, 0b10001, 0b10001, 0b11110, 0b10001, 0b10001, 0b11110]),
        'C' | 'c' => Some([0b01110, 0b10001, 0b10000, 0b10000, 0b10000, 0b10001, 0b01110]),
        'D' | 'd' => Some([0b11110, 0b10001, 0b10001, 0b10001, 0b10001, 0b10001, 0b11110]),
        'E' | 'e' => Some([0b11111, 0b10000, 0b10000, 0b11110, 0b10000, 0b10000, 0b11111]),
        'F' | 'f' => Some([0b11111, 0b10000, 0b10000, 0b11110, 0b10000, 0b10000, 0b10000]),
        'G' | 'g' => Some([0b01110, 0b10001, 0b10000, 0b10011, 0b10001, 0b10001, 0b01110]),
        'H' | 'h' => Some([0b10001, 0b10001, 0b10001, 0b11111, 0b10001, 0b10001, 0b10001]),
        'I' | 'i' => Some([0b01110, 0b00100, 0b00100, 0b00100, 0b00100, 0b00100, 0b01110]),
        'J' | 'j' => Some([0b00001, 0b00001, 0b00001, 0b00001, 0b10001, 0b10001, 0b01110]),
        'K' | 'k' => Some([0b10001, 0b10010, 0b10100, 0b11000, 0b10100, 0b10010, 0b10001]),
        'L' | 'l' => Some([0b10000, 0b10000, 0b10000, 0b10000, 0b10000, 0b10000, 0b11111]),
        'M' | 'm' => Some([0b10001, 0b11011, 0b10101, 0b10001, 0b10001, 0b10001, 0b10001]),
        'N' | 'n' => Some([0b10001, 0b11001, 0b10101, 0b10011, 0b10001, 0b10001, 0b10001]),
        'O' | 'o' => Some([0b01110, 0b10001, 0b10001, 0b10001, 0b10001, 0b10001, 0b01110]),
        'P' | 'p' => Some([0b11110, 0b10001, 0b10001, 0b11110, 0b10000, 0b10000, 0b10000]),
        'Q' | 'q' => Some([0b01110, 0b10001, 0b10001, 0b10001, 0b10101, 0b10010, 0b01101]),
        'R' | 'r' => Some([0b11110, 0b10001, 0b10001, 0b11110, 0b10100, 0b10010, 0b10001]),
        'S' | 's' => Some([0b01111, 0b10000, 0b10000, 0b01110, 0b00001, 0b00001, 0b11110]),
        'T' | 't' => Some([0b11111, 0b00100, 0b00100, 0b00100, 0b00100, 0b00100, 0b00100]),
        'U' | 'u' => Some([0b10001, 0b10001, 0b10001, 0b10001, 0b10001, 0b10001, 0b01110]),
        'V' | 'v' => Some([0b10001, 0b10001, 0b10001, 0b10001, 0b10001, 0b01010, 0b00100]),
        'W' | 'w' => Some([0b10001, 0b10001, 0b10001, 0b10101, 0b10101, 0b11011, 0b10001]),
        'X' | 'x' => Some([0b10001, 0b10001, 0b01010, 0b00100, 0b01010, 0b10001, 0b10001]),
        'Y' | 'y' => Some([0b10001, 0b10001, 0b01010, 0b00100, 0b00100, 0b00100, 0b00100]),
        'Z' | 'z' => Some([0b11111, 0b00001, 0b00010, 0b00100, 0b01000, 0b10000, 0b11111]),
        '0' => Some([0b01110, 0b10001, 0b10011, 0b10101, 0b11001, 0b10001, 0b01110]),
        '1' => Some([0b00100, 0b01100, 0b00100, 0b00100, 0b00100, 0b00100, 0b01110]),
        '2' => Some([0b01110, 0b10001, 0b00001, 0b00010, 0b00100, 0b01000, 0b11111]),
        '3' => Some([0b01110, 0b10001, 0b00001, 0b01110, 0b00001, 0b10001, 0b01110]),
        '4' => Some([0b00010, 0b00110, 0b01010, 0b10010, 0b11111, 0b00010, 0b00010]),
        '5' => Some([0b11111, 0b10000, 0b11110, 0b00001, 0b00001, 0b10001, 0b01110]),
        '6' => Some([0b01110, 0b10000, 0b10000, 0b11110, 0b10001, 0b10001, 0b01110]),
        '7' => Some([0b11111, 0b00001, 0b00010, 0b00100, 0b00100, 0b00100, 0b00100]),
        '8' => Some([0b01110, 0b10001, 0b10001, 0b01110, 0b10001, 0b10001, 0b01110]),
        '9' => Some([0b01110, 0b10001, 0b10001, 0b01111, 0b00001, 0b00001, 0b01110]),
        ' ' => Some([0b00000, 0b00000, 0b00000, 0b00000, 0b00000, 0b00000, 0b00000]),
        '.' => Some([0b00000, 0b00000, 0b00000, 0b00000, 0b00000, 0b00110, 0b00110]),
        '!' => Some([0b00100, 0b00100, 0b00100, 0b00100, 0b00000, 0b00000, 0b00100]),
        '-' => Some([0b00000, 0b00000, 0b00000, 0b11111, 0b00000, 0b00000, 0b00000]),
        _ => None,
    }
}

/// Whether column `col` (0 = leftmost) of a glyph row is lit.
pub open spec fn row_bit(row: u8, col: int) -> bool {
    (row >> ((4 - col) as u32)) & 1u8 == 1u8
}

/// Whether the font pixel at column `col`, row `row` of the glyph `rows` is lit.
pub open spec fn glyph_lit(rows: Option<[u8; 7]>, col: int, row: int) -> bool {
    match rows {
        Some(r) => row_bit(r[row], col),
        None => false,
    }
}

/// Where the point `(rx, ry)`, relative to the top left of a line of `len`
/// glyphs scaled by `s` and spaced `gap` screen pixels apart, falls: the
/// index of the glyph and the column and row of the font pixel within it, or
/// nothing where it is outside every glyph (in a gap, or beyond the line).
pub open spec fn text_cell(rx: int, ry: int, s: int, gap: int, len: int) -> Option<(int, int, int)> {
    if rx < 0 || ry < 0 || ry >= GLYPH_H * s {
        None
    } else {
        let cs = GLYPH_W * s + gap;
        let ci = rx / cs;
        let wc = rx % cs;
        if ci >= len || wc >= GLYPH_W * s {
            None
        } else {
            Some((ci, wc / s, ry / s))
        }
    }
}

/// Whether the screen point `(px, py)` is lit by `text`, drawn with its top
/// left at `(ox, oy)`, scaled by `s` and with `gap` screen pixels between
/// glyphs.
pub open spec fn text_lit(px: int, py: int, ox: int, oy: int, s: int, gap: int, text: Seq<u8>) -> bool {
    match text_cell(px - ox, py - oy, s, gap, text.len() as int) {
        Some((ci, col, row)) => glyph_lit(glyph_table(text[ci] as char), col, row),
        None => false,
    }
}

/// Whether the font pixel at column `gc`, row `gr` of the glyph of character
/// `ci` of `text` is lit; false where any of them is out of range.
pub fn glyph_pixel_set(text: &[u8], ci: u32, gc: u32, gr: u32) -> (lit: bool)
    requires
        text@.len() <= u32::MAX,
    ensures
        lit == (ci < text@.len() && gc < GLYPH_W && gr < GLYPH_H
            && glyph_lit(glyph_table(text@[ci as int] as char), gc as int, gr as int)),
{
    if ci >= text.len() as u32 || gc >= GLYPH_W || gr >= GLYPH_H {
        return false;
    }
    if let Some(rows) = glyph(text[ci as usize] as char) {
        return (rows[gr as usize] >> (GLYPH_W - 1 - gc)) & 1 == 1;
    }
    false
}

/// Whether the screen point `(px, py)` is lit by `text` drawn at `(ox, oy)`
/// with scale `s` and `gap` pixels between glyphs.
pub fn is_text_pixel(px: i32, py: i32, ox: i32, oy: i32, s: u32, gap: u32, text: &[u8]) -> (lit: bool)
    requires
        i32::MIN <= px - ox <= i32::MAX,
        i32::MIN <= py - oy <= i32::MAX,
        GLYPH_W * s + gap <= u32::MAX,
        GLYPH_H * s <= u32::MAX,
        text@.len() <= u32::MAX,
    ensures
        lit == text_lit(px as int, py as int, ox as int, oy as int, s as int, gap as int, text@),
{
    let rx = px - ox;
    let ry = py - oy;
    if rx < 0 || ry < 0 {
        return false;
    }
    let rx = rx as u32;
    let ry = ry as u32;
    if ry >= GLYPH_H * s {
        return false;
    }
    let gr = ry / s;
    let cs = GLYPH_W * s + gap;
    let ci = rx / cs;
    let wc = rx % cs;
    if ci >= text.len() as u32 || wc >= GLYPH_W * s {
        return false;
    }
    proof {
        lemma_div_below(wc as int, GLYPH_W as int, s as int);
        lemma_div_below(ry as int, GLYPH_H as int, s as int);
    }
    glyph_pixel_set(text, ci, wc / s, gr)
}

/// A quotient by `s` of a value below `k·s` is below `k`.
pub(crate) proof fn lemma_div_below(a: int, k: int, s: int)
    requires
        0 <= a < k * s,
        s > 0,
    ensures
        a / s < k,
{
    assert(a / s < k) by (nonlinear_arith)
        requires
            0 <= a < k * s,
            s > 0,
    ;
}

} // verus!

verus! {

/// Letters are drawn the same in either case: each lower-case letter has the
/// glyph of its capital.
pub proof fn lemma_glyph_case_insensitive(c: u32)
    requires
        'a' as u32 <= c <= 'z' as u32,
    ensures
        glyph_table(c as char) == glyph_table((c - 32) as char),
{
}

/// Text lights only points inside its line: from its top left corner,
/// `len` glyph cells wide (each `GLYPH_W·s + gap`) and `GLYPH_H·s` high.
pub proof fn lemma_text_within_line(px: int, py: int, ox: int, oy: int, s: int, gap: int, text: Seq<u8>)
    requires
        s >= 0,
        gap >= 0,
        text_lit(px, py, ox, oy, s, gap, text),
    ensures
        ox <= px < ox + text.len() * (GLYPH_W * s + gap),
        oy <= py < oy + GLYPH_H * s,
{
    let rx = px - ox;
    let cs = GLYPH_W * s + gap;
    let len = text.len() as int;
    assert(rx < len * cs) by (nonlinear_arith)
        requires
            0 <= rx,
            cs > 0,
            rx / cs < len,
    {
        vstd::arithmetic::div_mod::lemma_fundamental_div_mod(rx, cs);
    }
}

} // verus!

verus! {

/// Only a point's offset from the text's origin decides whether text lights
/// it: moving both by the same amount changes nothing.
pub proof fn lemma_text_shift_invariant(
    px: int,
    py: int,
    ox: int,
    oy: int,
    dx: int,
    dy: int,
    s: int,
    gap: int,
    text: Seq<u8>,
)
    ensures
        text_lit(px + dx, py + dy, ox + dx, oy + dy, s, gap, text) == text_lit(px, py, ox, oy, s, gap, text),
{
    assert((px + dx) - (ox + dx) == px - ox && (py + dy) - (oy + dy) == py - oy);
}

/// The symbols of the font: the capital letters, the digits, the space and
/// `.`, `!`, `-`.
pub open spec fn is_font_symbol(c: u32) -> bool {
    ||| 'A' as u32 <= c <= 'Z' as u32
    ||| '0' as u32 <= c <= '9' as u32
    ||| c == ' ' as u32
    ||| c == '.' as u32
    ||| c == '!' as u32
    ||| c == '-' as u32
}

/// The rows of a glyph read as one number, five bits per row.
spec fn glyph_code(rows: [u8; 7]) -> int {
    rows[0] as int + 32 * rows[1] + 1024 * rows[2] + 32768 * rows[3] + 1048576 * rows[4]
        + 33554432 * rows[5] + 1073741824 * rows[6]
}

/// The symbol whose glyph reads as `code`.
spec fn symbol_of_code(code: int) -> u32 {
    if code == 18842895918 {
        65
    } else if code == 32801506878 {
        66
    } else if code == 15620129326 {
        67
    } else if code == 32801080894 {
        68
    } else if code == 33840644639 {
        69
    } else if code == 17734517279 {
        70
    } else if code == 15621276206 {
        71
    } else if code == 18842895921 {
        72
    } else if code == 15170932878 {
        73
    } else if code == 15620670497 {
        74
    } else if code == 18879369809 {
        75
    } else if code == 33840185872 {
        76
    } else if code == 18842441585 {
        77
    } else if code == 18842507057 {
        78
    } else if code == 15621211694 {
        79
    } else if code == 17734518334 {
        80
    } else if code == 14585218606 {
        81
    } else if code == 18879563326 {
        82
    } else if code == 32247333391 {
        83
    } else if code == 4433514655 {
        84
    } else if code == 15621211697 {
        85
    } else if code == 4648912433 {
        86
    } else if code == 19182306865 {
        87
    } else if code == 18834663985 {
        88
    } else if code == 4433521201 {
        89
    } else if code == 33831389247 {
        90
    } else if code == 15629733422 {
        48
    } else if code == 15170933124 {
        49
    } else if code == 33558693422 {
        50
    } else if code == 15604319790 {
        51
    } else if code == 2247698626 {
        52
    } else if code == 15603923487 {
        53
    } else if code == 15621636622 {
        54
    } else if code == 4433512511 {
        55
    } else if code == 15621113390 {
        56
    } else if code == 15067498030 {
        57
    } else if code == 0 {
        32
    } else if code == 6643777536 {
        46
    } else if code == 4295102596 {
        33
    } else if code == 1015808 {
        45
    } else {
        0
    }
}

/// Every symbol of the font has a glyph, and its glyph read as a number
/// tells the symbol back.
proof fn lemma_glyph_code_names_symbol(c: u32)
    requires
        is_font_symbol(c),
    ensures
        glyph_table(c as char) is Some,
        symbol_of_code(glyph_code(glyph_table(c as char)->0)) == c,
{
    assert(c == 65 || c == 66 || c == 67 || c == 68 || c == 69 || c == 70 || c == 71 || c == 72 || c == 73 || c == 74 || c == 75 || c == 76 || c == 77 || c == 78 || c == 79 || c == 80 || c == 81 || c == 82 || c == 83 || c == 84 || c == 85 || c == 86 || c == 87 || c == 88 || c == 89 || c == 90 || c == 48 || c == 49 || c == 50 || c == 51 || c == 52 || c == 53 || c == 54 || c == 55 || c == 56 || c == 57 || c == 32 || c == 46 || c == 33 || c == 45);
}

/// Different symbols look different: no two symbols of the font share a
/// glyph, so no character is drawn as another.
pub proof fn lemma_glyphs_distinct(a: u32, b: u32)
    requires
        is_font_symbol(a),
        is_font_symbol(b),
        a != b,
    ensures
        glyph_table(a as char) != glyph_table(b as char),
{
    lemma_glyph_code_names_symbol(a);
    lemma_glyph_code_names_symbol(b);
}

/// Every glyph row is five pixels wide: no row sets a bit left of bit 4.
pub proof fn lemma_glyph_rows_fit(c: u32)
    requires
        is_font_symbol(c),
    ensures
        forall|r: int| 0 <= r < 7 ==> #[trigger] (glyph_table(c as char)->0)[r] < 32,
{
    assert(c == 65 || c == 66 || c == 67 || c == 68 || c == 69 || c == 70 || c == 71 || c == 72 || c == 73 || c == 74 || c == 75 || c == 76 || c == 77 || c == 78 || c == 79 || c == 80 || c == 81 || c == 82 || c == 83 || c == 84 || c == 85 || c == 86 || c == 87 || c == 88 || c == 89 || c == 90 || c == 48 || c == 49 || c == 50 || c == 51 || c == 52 || c == 53 || c == 54 || c == 55 || c == 56 || c == 57 || c == 32 || c == 46 || c == 33 || c == 45);
}

/// Text is its glyphs blown up: every font pixel of glyph `ci` becomes an
/// `s`×`s` block of screen pixels, lit exactly when that font pixel is lit,
/// with glyph `ci` starting `ci·(GLYPH_W·s + gap)` pixels right of the origin;
/// the `gap` columns after each glyph stay dark.
pub proof fn lemma_text_blocks(
    ox: int,
    oy: int,
    s: int,
    gap: int,
    text: Seq<u8>,
    ci: int,
    col: int,
    row: int,
    dx: int,
    dy: int,
    g: int,
)
    requires
        s > 0,
        gap >= 0,
        0 <= ci < text.len(),
        0 <= col < GLYPH_W,
        0 <= row < GLYPH_H,
        0 <= dx < s,
        0 <= dy < s,
        0 <= g < gap,
    ensures
        text_lit(
            ox + ci * (GLYPH_W * s + gap) + col * s + dx,
            oy + row * s + dy,
            ox,
            oy,
            s,
            gap,
            text,
        ) == glyph_lit(glyph_table(text[ci] as char), col, row),
        !text_lit(ox + ci * (GLYPH_W * s + gap) + GLYPH_W * s + g, oy + row * s + dy, ox, oy, s, gap, text),
{
    let cs = GLYPH_W * s + gap;
    let w = col * s + dx;
    assert(0 <= w < GLYPH_W * s) by (nonlinear_arith)
        requires
            0 <= col < 5,
            0 <= dx < s,
            w == col * s + dx,
    ;
    assert(0 <= row * s + dy < GLYPH_H * s) by (nonlinear_arith)
        requires
            0 <= row < 7,
            0 <= dy < s,
    ;
    assert(ci * cs >= 0) by (nonlinear_arith)
        requires
            ci >= 0,
            cs > 0,
    ;
    vstd::arithmetic::div_mod::lemma_fundamental_div_mod_converse(ci * cs + w, cs, ci, w);
    vstd::arithmetic::div_mod::lemma_fundamental_div_mod_converse(w, s, col, dx);
    vstd::arithmetic::div_mod::lemma_fundamental_div_mod_converse(row * s + dy, s, row, dy);
    vstd::arithmetic::div_mod::lemma_fundamental_div_mod_converse(ci * cs + GLYPH_W * s + g, cs, ci, GLYPH_W * s + g);
    assert(ox + ci * cs + w - ox == ci * cs + w);
    assert(ox + ci * cs + GLYPH_W * s + g - ox == ci * cs + GLYPH_W * s + g);
    assert(oy + row * s + dy - oy == row * s + dy);
}

} // verus!
