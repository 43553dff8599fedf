//! The small font of the laser scene, which has only the letters it needs,
//! and its text layout: glyphs one font pixel apart.

use crate::font::{glyph_lit, lemma_div_below, text_cell, GLYPH_H, GLYPH_W};
use vstd::prelude::*;

verus! {

/// Font pixels between two glyphs.
pub const GLYPH_GAP: u32 = 1;

/// The rows of the laser scene's glyph for `ch`, top row first; bit 4 of a
/// row is its leftmost column. Its D is rounder than that of the main font.
pub open spec fn laser_glyph_table(ch: char) -> Option<[u8; 7]> {
    match ch {
        'A' | 'a' => Some([0b01110, 0b10001, 0b10001, 0b11111, 0b10001, 0b10001, 0b10001]),
        'D' | 'd' => Some([0b11100, 0b10010, 0b10001, 0b10001, 0b10001, 0b10010, 0b11100]),
        'I' | 'i' => Some([0b01110, 0b00100, 0b00100, 0b00100, 0b00100, 0b00100, 0b01110]),
        'K' | 'k' => Some([0b10001, 0b10010, 0b10100, 0b11000, 0b10100, 0b10010, 0b10001]),
        ' ' => Some([0b00000, 0b00000, 0b00000, 0b00000, 0b00000, 0b00000, 0b00000]),
        _ => None,
    }
}

/// The laser scene's 5×7 glyph of `ch`, if its font has one.
pub fn laser_glyph(ch: char) -> (rows: Option<[u8; 7]>)
    ensures
        rows == laser_glyph_table(ch),
{
    match ch {
        'A' | 'a' => Some([0b01110, 0b10001, 0b10001, 0b11111, 0b10001, 0b10001, 0b10001]),
        'D' | 'd' => Some([0b11100, 0b10010, 0b10001, 0b10001, 0b10001, 0b10010, 0b11100]),
        'I' | 'i' => Some([0b01110, 0b00100, 0b00100, 0b00100, 0b00100, 0b00100, 0b01110]),
        'K' | 'k' => Some([0b10001, 0b10010, 0b10100, 0b11000, 0b10100, 0b10010, 0b10001]),
        ' ' => Some([0b00000, 0b00000, 0b00000, 0b00000, 0b00000, 0b00000, 0b00000]),
        _ => None,
    }
}

/// Whether the screen point `(px, py)` is lit by `text` drawn in the laser
/// font with its top left at `(ox, oy)` and scale `s`; glyphs stand one
/// font pixel (`s` screen pixels) apart.
pub open spec fn laser_text_lit(px: int, py: int, ox: int, oy: int, s: int, text: Seq<u8>) -> bool {
    match text_cell(px - ox, py - oy, s, GLYPH_GAP * s, text.len() as int) {
        Some((ci, col, row)) => glyph_lit(laser_glyph_table(text[ci] as char), col, row),
        None => false,
    }
}

/// Whether the screen point `(px, py)` is lit by `text` drawn in the laser
/// font at `(ox, oy)` with scale `s`.
pub fn is_laser_text_pixel(px: i32, py: i32, ox: i32, oy: i32, s: u32, text: &[u8]) -> (lit: bool)
    requires
        i32::MIN <= px - ox <= i32::MAX,
        i32::MIN <= py - oy <= i32::MAX,
        GLYPH_H * s <= u32::MAX,
        text@.len() <= u32::MAX,
    ensures
        lit == laser_text_lit(px as int, py as int, ox as int, oy as int, s as int, text@),
{
    let rx = px - ox;
    let ry = py - oy;
    if rx < 0 || ry < 0 {
        return false;
    }
    let rx = rx as u32;
    let ry = ry as u32;
    if ry >= GLYPH_H * s {
        return false;
    }
    let gr = ry / s;
    assert((GLYPH_W + GLYPH_GAP) * s == GLYPH_W * s + GLYPH_GAP * s && GLYPH_GAP * s == s
        && GLYPH_W * s + s <= GLYPH_H * s) by (nonlinear_arith)
        requires
            GLYPH_W == 5,
            GLYPH_GAP == 1,
            GLYPH_H == 7,
    ;
    let cs = (GLYPH_W + GLYPH_GAP) * s;
    let ci = rx / cs;
    let wc = rx % cs;
    if ci >= text.len() as u32 || wc >= GLYPH_W * s {
        return false;
    }
    let row_idx = ci as usize;
    if row_idx >= text.len() {
        return false;
    }
    proof {
        lemma_div_below(wc as int, GLYPH_W as int, s as int);
        lemma_div_below(ry as int, GLYPH_H as int, s as int);
    }
    if let Some(rows) = laser_glyph(text[row_idx] as char) {
        return (rows[gr as usize] >> (GLYPH_W - 1 - wc / s)) & 1 == 1;
    }
    false
}

} // verus!

verus! {

/// Only a point's offset from the text's origin decides whether laser-font
/// text lights it: moving both by the same amount changes nothing.
pub proof fn lemma_laser_text_shift_invariant(
    px: int,
    py: int,
    ox: int,
    oy: int,
    dx: int,
    dy: int,
    s: int,
    text: Seq<u8>,
)
    ensures
        laser_text_lit(px + dx, py + dy, ox + dx, oy + dy, s, text) == laser_text_lit(px, py, ox, oy, s, text),
{
    assert((px + dx) - (ox + dx) == px - ox && (py + dy) - (oy + dy) == py - oy);
}

/// The symbols of the laser scene's font: K, A, D, I and the space.
pub open spec fn is_laser_symbol(c: u32) -> bool {
    c == 'K' as u32 || c == 'A' as u32 || c == 'D' as u32 || c == 'I' as u32 || c == ' ' as u32
}

/// Different symbols of the laser font look different, and its D differs
/// from the D of the main font.
pub proof fn lemma_laser_glyphs_distinct(a: u32, b: u32)
    requires
        is_laser_symbol(a),
        is_laser_symbol(b),
        a != b,
    ensures
        laser_glyph_table(a as char) is Some,
        laser_glyph_table(a as char) != laser_glyph_table(b as char),
        laser_glyph_table('D') != crate::font::glyph_table('D'),
{
    let ra = laser_glyph_table(a as char)->0;
    let rb = laser_glyph_table(b as char)->0;
    assert(ra[0] != rb[0] || ra[1] != rb[1] || ra[3] != rb[3]);
    assert((laser_glyph_table('D')->0)[0] != (crate::font::glyph_table('D')->0)[0]);
}

} // verus!
