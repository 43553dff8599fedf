//! RGB565 colour values, as stored in the framebuffer: 5 bits of red,
//! 6 bits of green and 5 bits of blue packed into a `u16`.

use embedded_graphics::pixelcolor::raw::RawU16;
use embedded_graphics::pixelcolor::{IntoStorage, Rgb565, RgbColor};
use vstd::prelude::*;

verus! {

/// The storage value of an RGB565 colour with the given channels; each
/// channel is cut to its width by dropping the high bits.
pub open spec fn rgb565(r: int, g: int, b: int) -> int {
    (r % 32) * 2048 + (g % 64) * 32 + (b % 32)
}

/// The red channel of a stored RGB565 colour.
pub open spec fn red_of(raw: int) -> int {
    (raw / 2048) % 32
}

/// The green channel of a stored RGB565 colour.
pub open spec fn green_of(raw: int) -> int {
    (raw / 32) % 64
}

/// The blue channel of a stored RGB565 colour.
pub open spec fn blue_of(raw: int) -> int {
    raw % 32
}

/// Channels within their widths come back unchanged from a packed colour,
/// and every packed colour fits in 16 bits.
pub proof fn lemma_rgb565_channels(r: int, g: int, b: int)
    requires
        0 <= r < 32,
        0 <= g < 64,
        0 <= b < 32,
    ensures
        red_of(rgb565(r, g, b)) == r,
        green_of(rgb565(r, g, b)) == g,
        blue_of(rgb565(r, g, b)) == b,
        0 <= rgb565(r, g, b) <= u16::MAX,
{
}

/// Calls `Rgb565::new` of embedded-graphics and returns the colour's storage
/// value. The source masks each channel to its width (5, 6, 5 bits) and
/// packs them as `r << 11 | g << 5 | b`, which is what the contract states.
#[verifier::external_body]
fn eg_rgb565_new(r: u8, g: u8, b: u8) -> (raw: u16)
    ensures
        raw == rgb565(r as int, g as int, b as int),
{
    Rgb565::new(r, g, b).into_storage()
}

/// Calls `RgbColor::r` of embedded-graphics on the colour whose storage value
/// is `raw`; the source computes `(raw >> 11) & 0x1f`.
#[verifier::external_body]
fn eg_rgb565_r(raw: u16) -> (r: u8)
    ensures
        r == red_of(raw as int),
{
    Rgb565::from(RawU16::new(raw)).r()
}

/// Calls `RgbColor::g` of embedded-graphics on the colour whose storage value
/// is `raw`; the source computes `(raw >> 5) as u8 & 0x3f`.
#[verifier::external_body]
fn eg_rgb565_g(raw: u16) -> (g: u8)
    ensures
        g == green_of(raw as int),
{
    Rgb565::from(RawU16::new(raw)).g()
}

/// Packs three channels into an RGB565 storage value.
pub fn rgb(r: u8, g: u8, b: u8) -> (raw: u16)
    ensures
        raw == rgb565(r as int, g as int, b as int),
        r < 32 && g < 64 && b < 32 ==> red_of(raw as int) == r && green_of(raw as int) == g
            && blue_of(raw as int) == b,
{
    eg_rgb565_new(r, g, b)
}

/// The red channel (0..=31) of a stored colour.
pub fn red(raw: u16) -> (r: u8)
    ensures
        r == red_of(raw as int),
        r < 32,
{
    eg_rgb565_r(raw)
}

/// The green channel (0..=63) of a stored colour.
pub fn green(raw: u16) -> (g: u8)
    ensures
        g == green_of(raw as int),
        g < 64,
{
    eg_rgb565_g(raw)
}

} // verus!
