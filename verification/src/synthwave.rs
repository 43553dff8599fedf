//! The synthwave scene: a sky gradient, a striped peach-to-red sun (the sky
//! shows through its stripes, over the lower third of the disc that rises
//! above the horizon), the "Disobey2026" title in front of it, a neon
//! horizon, and a scrolling perspective grid with a road.

use crate::color::{blue_of, green_of, lemma_rgb565_channels, red_of, rgb, rgb565};
use crate::font::{glyph_table, is_text_pixel, text_cell, text_lit, GLYPH_H, GLYPH_W};
use crate::arith::{abs_i32, unsigned_abs_i32};
use crate::framebuffer::{on_screen, pixel_index, Framebuffer, HEIGHT, WIDTH};
use crate::trig::{isin, isin_spec};
use vstd::arithmetic::div_mod::lemma_div_is_ordered;
use vstd::math::{abs, max, min};
use vstd::prelude::*;

verus! {

/// Screen row of the horizon line.
pub const HORIZON_Y: i32 = 75;

/// Centre of the sun.
pub const SUN_CX: i32 = 160;

/// Centre of the sun (slightly above the horizon).
pub const SUN_CY: i32 = 70;

/// Radius of the sun.
pub const SUN_R: i32 = 45;

/// Half the width of the road where it meets the horizon.
pub const ROAD_HALF: i32 = 20;

/// The scroll position wraps at this value.
pub const SCROLL_WRAP: i32 = 100000;

/// How far the ground scrolls each frame.
pub const SCROLL_STEP: i32 = 6;

/// The title drawn across the sun.
pub const NAME: [u8; 11] = [68, 105, 115, 111, 98, 101, 121, 50, 48, 50, 54];

/// Scale of the title's font pixels.
pub const TEXT_SCALE: u32 = 5;

/// Screen pixels between two glyphs of the title.
pub const TEXT_GAP: u32 = 3;

/// Left edge of the title: the title is centred on the screen.
pub open spec fn text_x() -> int {
    (WIDTH - (11 * (GLYPH_W * TEXT_SCALE + TEXT_GAP) - TEXT_GAP)) / 2
}

/// Top edge of the title: it stands on the horizon.
pub open spec fn text_y() -> int {
    HORIZON_Y - GLYPH_H * TEXT_SCALE
}

/// Neon pink, used for the title and the horizon line.
pub open spec fn neon_pink() -> int {
    rgb565(31, 0, 28)
}

/// The sky at row `y`: dark purple at the top shading to hot magenta at the
/// horizon.
pub open spec fn sky_color(y: int) -> int {
    let st = y * 256 / (HORIZON_Y as int);
    rgb565(1 + st * 24 / 256, st * 2 / 256, 3 + st * 17 / 256)
}

/// Whether `(x, y)` lies within the sun's disc.
pub open spec fn in_sun(x: int, y: int) -> bool {
    (x - SUN_CX) * (x - SUN_CX) + (y - SUN_CY) * (y - SUN_CY) <= SUN_R * SUN_R
}

/// Height of the part of the sun's disc above the horizon.
pub open spec fn sun_visible_height() -> int {
    HORIZON_Y - (SUN_CY - SUN_R)
}

/// Whether row `ft` of the sun (counted from its top) is cut by a stripe:
/// the stripes fill the bottom third of the visible disc, their gaps `sp`
/// rows thick, growing toward the horizon.
pub open spec fn sun_stripe(ft: int) -> bool {
    let s = ft - sun_visible_height() * 2 / 3;
    let sp = max(3 + s / 8, 1);
    s > 0 && s % (sp * 2) >= sp
}

/// The sun at `(x, y)`: a vertical peach-to-red gradient, cut by stripes in
/// the bottom third of its visible part; nothing outside the disc or in a
/// stripe.
pub open spec fn sun_color(x: int, y: int) -> Option<int> {
    let ft = max(y - SUN_CY + SUN_R, 0);
    let diam = SUN_R * 2;
    let stripe = sun_stripe(ft);
    if !in_sun(x, y) || stripe {
        None
    } else {
        Some(
            rgb565(
                max(31 - ft * 3 / diam, 0),
                max(50 - ft * 45 / diam, 0),
                max(16 - ft * 14 / diam, 0),
            ),
        )
    }
}

/// `v` limited to the range `lo..=hi`.
pub open spec fn clamp(v: int, lo: int, hi: int) -> int {
    min(max(v, lo), hi)
}

/// Quotient of `a` by `b > 0`, rounded toward zero.
pub open spec fn div_toward_zero(a: int, b: int) -> int {
    if a >= 0 {
        a / b
    } else {
        -((-a) / b)
    }
}

/// The pulsing cyan of the road's edges, at row `y` of frame `f`.
pub open spec fn road_edge_color(f: int, y: int) -> int {
    let p = clamp((isin_spec(f * 4 + y * 3) + 120) * 15 / 240, 0, 30);
    rgb565(0, 33 + p, 31)
}

/// The colour of a grid line off the road, at depth `z` of frame `f`; where
/// a horizontal and a vertical line cross it is brightest.
pub open spec fn grid_color(f: int, z: int, horizontal: bool, vertical: bool) -> int {
    let np = clamp((isin_spec(f * 3 + z) + 120) * 10 / 240, 0, 10);
    if horizontal && vertical {
        rgb565(15 + np, 0, 25)
    } else if horizontal {
        rgb565(0, 10 + np * 2, 20)
    } else {
        rgb565(5 + np, 0, 15)
    }
}

/// The ground at `(x, y)` below the horizon, in frame `f` with the ground
/// scrolled by `scroll`: the point is projected to depth `z = 8000 / d`
/// (`d` rows below the horizon) and across to `xw`; the road widens toward
/// the viewer, has a dashed centre line and pulsing edges, and beside it
/// lies a grid whose lines widen with the sampling step so that they do not
/// alias.
pub open spec fn ground_color(x: int, y: int, f: int, scroll: int) -> int {
    let d: int = y - HORIZON_Y;
    let z: int = 8000int / d;
    let zs = (z + scroll) % (SCROLL_WRAP as int);
    let rw = ROAD_HALF + ROAD_HALF * 8 * d / (HEIGHT - HORIZON_Y);
    let fc = abs(x - 160);
    let xw = div_toward_zero((x - 160) * 200, d);
    let th_h = 2 + 8000int / max(d * d, 1);
    let th_v = 6 + 200int / d;
    if fc <= 1 {
        if (zs / 20) % 2 == 0 {
            rgb565(31, 63, 31)
        } else {
            rgb565(1, 3, 3)
        }
    } else if abs(fc - rw) <= 1 {
        road_edge_color(f, y)
    } else if fc < rw {
        if zs % 40 < 2 {
            rgb565(4, 8, 8)
        } else {
            rgb565(1, 2, 2)
        }
    } else if d > 5 {
        let horizontal = zs % 40 < th_h;
        let vertical = abs(xw) % 50 < th_v;
        if horizontal || vertical {
            grid_color(f, z, horizontal, vertical)
        } else {
            rgb565(1, 2, 3)
        }
    } else {
        rgb565(1, 2, 3)
    }
}

/// The colour of the scene at `(x, y)` in frame `f` (taken modulo the scroll
/// wrap) with the ground scrolled by `scroll`. The title is in front of
/// everything, the sun in front of the sky.
pub open spec fn synthwave_pixel(x: int, y: int, f: int, scroll: int) -> int {
    if y < HORIZON_Y {
        if text_lit(x, y, text_x(), text_y(), TEXT_SCALE as int, TEXT_GAP as int, NAME@) {
            neon_pink()
        } else {
            match sun_color(x, y) {
                Some(c) => c,
                None => sky_color(y),
            }
        }
    } else if y == HORIZON_Y {
        neon_pink()
    } else {
        ground_color(x, y, f, scroll)
    }
}

/// The sky at row `y`.
fn sky_at(y: i32) -> (c: u16)
    requires
        0 <= y < HORIZON_Y,
    ensures
        c == sky_color(y as int),
{
    let st = y * 256 / HORIZON_Y;
    rgb((1 + st * 24 / 256) as u8, (0 + st * 2 / 256) as u8, (3 + st * 17 / 256) as u8)
}

/// The sun at `(x, y)`, if it shows there.
fn sun_at(x: i32, y: i32) -> (c: Option<u16>)
    requires
        0 <= x < WIDTH,
        0 <= y < HEIGHT,
    ensures
        c matches Some(v) ==> sun_color(x as int, y as int) == Some(v as int),
        c is None ==> sun_color(x as int, y as int) is None,
{
    let dx = x - SUN_CX;
    let dy = y - SUN_CY;
    assert(dx * dx <= 160 * 160) by (nonlinear_arith)
        requires
            -160 <= dx <= 160,
    ;
    assert(dy * dy <= 100 * 100) by (nonlinear_arith)
        requires
            -100 <= dy <= 100,
    ;
    assert(0 <= dx * dx && 0 <= dy * dy) by (nonlinear_arith);
    let dsq = dx * dx + dy * dy;
    let in_sun = dsq <= SUN_R * SUN_R;
    if in_sun {
        let ft = (dy + SUN_R).max(0);
        let diam = (SUN_R * 2).max(1);
        // Stripes, thin at first, in the bottom third of the visible disc.
        let vis = HORIZON_Y - (SUN_CY - SUN_R);
        let st = ft - vis * 2 / 3;
        let sp = (3 + st / 8).max(1);
        let gap = st > 0 && (st % (sp * 2)) >= sp;
        if gap {
            None
        } else {
            let r = (31 - ft * 3 / diam).max(0) as u8;
            let g = (50 - ft * 45 / diam).max(0) as u8;
            let b = (16 - ft * 14 / diam).max(0) as u8;
            Some(rgb(r, g, b))
        }
    } else {
        None
    }
}

/// The ground at `(x, y)` below the horizon.
fn ground_at(x: i32, y: i32, f: i32, scroll: i32) -> (c: u16)
    requires
        0 <= x < WIDTH,
        HORIZON_Y < y < HEIGHT,
        0 <= f < SCROLL_WRAP,
        0 <= scroll < SCROLL_WRAP,
    ensures
        c == ground_color(x as int, y as int, f as int, scroll as int),
{
    let d = y - HORIZON_Y;
    let z = 8000 / d;
    let zs = unsigned_abs_i32(z + scroll) % 100000;

    // The road widens toward the viewer.
    let rw = ROAD_HALF + ROAD_HALF * 8 * d / (HEIGHT - HORIZON_Y);
    let fc = abs_i32(x - 160);
    let gridh = (zs % 40) < 2;
    let xw = (x - 160) * 200 / d;

    // Line widths cover the sampling step, so that the grid does not alias.
    assert(0 < d * d <= 94 * 94) by (nonlinear_arith)
        requires
            0 < d <= 94,
    ;
    let z_step = 8000 / (d * d).max(1);
    let x_step = 200 / d;
    let th_h = 2 + z_step;
    let th_v = 6 + x_step;

    if fc <= 1 {
        // Dashed centre line.
        if (zs / 20) % 2 == 0 {
            rgb(31, 63, 31)
        } else {
            rgb(1, 3, 3)
        }
    } else if abs_i32(fc - rw) <= 1 {
        // Pulsing cyan road edge.
        let v = isin(f * 4 + y * 3);
        let p = ((v + 120) * 15 / 240).max(0).min(30) as u8;
        rgb(0, 33 + p, 31)
    } else if fc < rw {
        if gridh {
            rgb(4, 8, 8)
        } else {
            rgb(1, 2, 2)
        }
    } else if d > 5 {
        let is_grid_h = (zs % 40) < th_h as u32;
        let is_grid_v = (unsigned_abs_i32(xw) % 50) < th_v as u32;
        if is_grid_h || is_grid_v {
            let nv = isin(f * 3 + z);
            let np = ((nv + 120) * 10 / 240).max(0).min(10) as u8;
            if is_grid_h && is_grid_v {
                rgb(15 + np, 0, 25)
            } else if is_grid_h {
                rgb(0, 10 + np * 2, 20)
            } else {
                rgb(5 + np, 0, 15)
            }
        } else {
            rgb(1, 2, 3)
        }
    } else {
        rgb(1, 2, 3)
    }
}

/// The colour of the scene at `(x, y)`, with the title at `(tox, toy)`.
fn pixel_at(x: i32, y: i32, f: i32, scroll: i32, tox: i32, toy: i32) -> (c: u16)
    requires
        0 <= x < WIDTH,
        0 <= y < HEIGHT,
        0 <= f < SCROLL_WRAP,
        0 <= scroll < SCROLL_WRAP,
        tox == text_x(),
        toy == text_y(),
    ensures
        c == synthwave_pixel(x as int, y as int, f as int, scroll as int),
{
    if y < HORIZON_Y {
        let sky = sky_at(y);
        let sun_col = sun_at(x, y);
        // The title is in front of everything.
        let on_text = is_text_pixel(x, y, tox, toy, TEXT_SCALE, TEXT_GAP, &NAME);
        if on_text {
            rgb(31, 0, 28)
        } else if let Some(sc) = sun_col {
            sc
        } else {
            sky
        }
    } else if y == HORIZON_Y {
        rgb(31, 0, 28)
    } else {
        ground_at(x, y, f, scroll)
    }
}

/// What the synthwave scene keeps from one frame to the next: how far the
/// ground has scrolled.
pub struct SynthwaveState {
    scroll: i32,
}

impl View for SynthwaveState {
    type V = int;

    closed spec fn view(&self) -> int {
        self.scroll as int
    }
}

impl SynthwaveState {
    /// The scroll position stays below its wrap.
    #[verifier::type_invariant]
    spec fn inv(self) -> bool {
        0 <= self.scroll < SCROLL_WRAP
    }

    /// The state before the first frame: no scroll.
    pub fn new() -> (s: SynthwaveState)
        ensures
            s@ == 0,
    {
        SynthwaveState { scroll: 0 }
    }

    /// How far the ground has scrolled.
    pub fn scroll(&self) -> (v: i32)
        ensures
            v == self@,
            0 <= v < SCROLL_WRAP,
    {
        proof {
            use_type_invariant(self);
        }
        self.scroll
    }
}

/// Renders frame number `frame` of the synthwave scene into `fb`, scrolling
/// the ground by `SCROLL_STEP` first: every pixel `(x, y)` of the screen gets
/// `synthwave_pixel(x, y, frame % 100000, scroll)` for the new scroll.
pub fn render_synthwave(fb: &mut Framebuffer, frame: u32, state: &mut SynthwaveState)
    requires
        old(fb).wf(),
    ensures
        final(fb).wf(),
        final(state)@ == (old(state)@ + SCROLL_STEP) % (SCROLL_WRAP as int),
        forall|x: int, y: int|
            on_screen(x, y) ==> #[trigger] final(fb)@[pixel_index(x, y)] == synthwave_pixel(
                x,
                y,
                frame as int % 100000,
                final(state)@,
            ),
{
    proof {
        use_type_invariant(&*state);
    }
    let f = (frame % 100000) as i32;
    state.scroll = (state.scroll + 6) % 100000;
    let scroll = state.scroll;

    // The title is centred, standing on the horizon.
    let ts: u32 = 5;
    let t_gap: u32 = 3;
    assert(GLYPH_W as i32 == 5 && ts as i32 == 5);
    let tw = NAME.len() as i32 * (GLYPH_W as i32 * ts as i32 + t_gap as i32) - t_gap as i32;
    let tox = (WIDTH - tw) / 2;
    let toy = HORIZON_Y - (GLYPH_H * ts) as i32;

    let mut y: i32 = 0;
    while y < HEIGHT
        invariant
            0 <= y <= HEIGHT,
            fb.wf(),
            0 <= f < SCROLL_WRAP,
            0 <= scroll < SCROLL_WRAP,
            f == frame as int % 100000,
            tox == text_x(),
            toy == text_y(),
            forall|xx: int, yy: int|
                0 <= xx < WIDTH && 0 <= yy < y ==> #[trigger] fb@[pixel_index(xx, yy)]
                    == synthwave_pixel(xx, yy, f as int, scroll as int),
        decreases HEIGHT - y,
    {
        let off = (y * WIDTH) as usize;
        let mut x: i32 = 0;
        while x < WIDTH
            invariant
                0 <= y < HEIGHT,
                0 <= x <= WIDTH,
                off == y * WIDTH,
                fb.wf(),
                0 <= f < SCROLL_WRAP,
                0 <= scroll < SCROLL_WRAP,
                tox == text_x(),
                toy == text_y(),
                forall|xx: int, yy: int|
                    0 <= xx < WIDTH && 0 <= yy < HEIGHT && (yy < y || (yy == y && xx < x))
                        ==> #[trigger] fb@[pixel_index(xx, yy)] == synthwave_pixel(
                        xx,
                        yy,
                        f as int,
                        scroll as int,
                    ),
            decreases WIDTH - x,
        {
            let color = pixel_at(x, y, f, scroll, tox, toy);
            fb.put(off + x as usize, color);
            x = x + 1;
        }
        y = y + 1;
    }
}

} // verus!

verus! {

/// The title is drawn in front of everything, and the horizon is a neon
/// line across the whole screen: every pixel of either is neon pink.
pub proof fn lemma_title_and_horizon_neon(x: int, y: int, f: int, scroll: int)
    requires
        on_screen(x, y),
        y == HORIZON_Y || text_lit(x, y, text_x(), text_y(), TEXT_SCALE as int, TEXT_GAP as int, NAME@),
    ensures
        synthwave_pixel(x, y, f, scroll) == neon_pink(),
{
}

/// The sky darkens toward the top: going down toward the horizon, neither
/// its red nor its blue ever decreases.
pub proof fn lemma_sky_brightens_downward(y1: int, y2: int)
    requires
        0 <= y1 <= y2 < HORIZON_Y,
    ensures
        red_of(sky_color(y1)) <= red_of(sky_color(y2)),
        blue_of(sky_color(y1)) <= blue_of(sky_color(y2)),
{
    let st1 = y1 * 256 / 75;
    let st2 = y2 * 256 / 75;
    lemma_div_is_ordered(y1 * 256, y2 * 256, 75);
    assert(0 <= st1 <= st2 <= 252);
    lemma_div_is_ordered(st1 * 24, st2 * 24, 256);
    lemma_div_is_ordered(st1 * 2, st2 * 2, 256);
    lemma_div_is_ordered(st1 * 17, st2 * 17, 256);
    lemma_rgb565_channels(1 + st1 * 24 / 256, st1 * 2 / 256, 3 + st1 * 17 / 256);
    lemma_rgb565_channels(1 + st2 * 24 / 256, st2 * 2 / 256, 3 + st2 * 17 / 256);
}

/// The road's centre line is dashed: below the horizon, the three middle
/// columns are white or near-black, alternating every 20 units of depth.
pub proof fn lemma_centre_line_dashed(x: int, y: int, f: int, scroll: int)
    requires
        159 <= x <= 161,
        HORIZON_Y < y < HEIGHT,
    ensures
        synthwave_pixel(x, y, f, scroll) == rgb565(31, 63, 31) || synthwave_pixel(x, y, f, scroll)
            == rgb565(1, 3, 3),
{
}

/// The sun is striped: where a stripe cuts its visible disc, and the title
/// does not cover the point, the sky shows through.
pub proof fn lemma_sun_stripes_show_sky(x: int, y: int, f: int, scroll: int)
    requires
        0 <= y < HORIZON_Y,
        in_sun(x, y),
        sun_stripe(y - SUN_CY + SUN_R),
        !text_lit(x, y, text_x(), text_y(), TEXT_SCALE as int, TEXT_GAP as int, NAME@),
    ensures
        synthwave_pixel(x, y, f, scroll) == sky_color(y),
{
}

/// Stripes do show: at `(160, 62)`, in the middle of the sun and between
/// two glyphs' strokes of the title, the sky shows through the sun.
pub proof fn lemma_sun_striped(f: int, scroll: int)
    ensures
        in_sun(160, 62),
        synthwave_pixel(160, 62, f, scroll) == sky_color(62),
        sun_color(160, 62) is None,
{
    assert(sun_visible_height() * 2 / 3 == 33);
    assert(4int % 6 == 4);
    assert(sun_stripe(37));
    let rx = 160 - text_x();
    let ry = 62 - text_y();
    assert(rx == 153 && ry == 22);
    assert(153int / 28 == 5 && 153int % 28 == 13 && 13int / 5 == 2 && 22int / 5 == 4);
    assert(text_cell(rx, ry, 5, 3, 11) == Some((5int, 2int, 4int)));
    assert(NAME@[5] == 101u8);
    assert(glyph_table(101u8 as char) == Some([0b11111u8, 0b10000, 0b10000, 0b11110, 0b10000, 0b10000, 0b11111]));
    assert((0b10000u8 >> 2u32) & 1u8 == 0u8) by (bit_vector);
    assert(!text_lit(160, 62, text_x(), text_y(), TEXT_SCALE as int, TEXT_GAP as int, NAME@));
}

/// The ground is mirror-symmetric about the road's centre line (x = 160):
/// the road, its edges and the grid look the same on both sides.
pub proof fn lemma_ground_mirrored(dx: int, y: int, f: int, scroll: int)
    requires
        HORIZON_Y < y,
    ensures
        ground_color(160 + dx, y, f, scroll) == ground_color(160 - dx, y, f, scroll),
{
    let d = y - HORIZON_Y;
    assert(0int / d == 0);
    assert(div_toward_zero((160 - dx - 160) * 200, d) == -div_toward_zero((160 + dx - 160) * 200, d));
}

/// The road's dashes move with the scroll: for every scroll value, a point of
/// the centre line at depth `8000 / (y - 75)` is white exactly when that
/// depth plus the scroll, wrapped, lies in an even 20-unit band.
pub proof fn lemma_centre_line_follows_scroll(y: int, f: int, scroll: int)
    requires
        HORIZON_Y < y,
        0 <= scroll < 100000,
    ensures
        (synthwave_pixel(160, y, f, scroll) == rgb565(31, 63, 31)) <==> ((8000int / (y - 75) + scroll)
            % 100000 / 20) % 2 == 0,
{
    lemma_rgb565_channels(31, 63, 31);
    lemma_rgb565_channels(1, 3, 3);
}

/// The road's cross-stripes move with the scroll too: strictly inside the
/// road, away from its edges and centre line, a point is lit exactly when
/// its depth plus the scroll, wrapped, lies in the first 2 of every 40 units.
pub proof fn lemma_road_stripes_follow_scroll(x: int, y: int, f: int, scroll: int)
    requires
        HORIZON_Y < y,
        0 <= scroll < 100000,
        1 < abs(x - 160) < 20 + 160 * (y - 75) / 95 - 1,
    ensures
        (synthwave_pixel(x, y, f, scroll) == rgb565(4, 8, 8)) <==> ((8000int / (y - 75) + scroll)
            % 100000) % 40 < 2,
{
    lemma_rgb565_channels(4, 8, 8);
    lemma_rgb565_channels(1, 2, 2);
    assert(20 * 8 * (y - 75) == 160 * (y - 75));
}

/// The sun shades from peach at its top toward red: wherever it is drawn, a
/// lower point is no brighter in any channel than a higher one.
pub proof fn lemma_sun_darkens_downward(x1: int, y1: int, x2: int, y2: int)
    requires
        sun_color(x1, y1) is Some,
        sun_color(x2, y2) is Some,
        y1 <= y2,
    ensures
        red_of(sun_color(x1, y1)->0) >= red_of(sun_color(x2, y2)->0),
        green_of(sun_color(x1, y1)->0) >= green_of(sun_color(x2, y2)->0),
        blue_of(sun_color(x1, y1)->0) >= blue_of(sun_color(x2, y2)->0),
        sun_color(160, 25) == Some(rgb565(31, 50, 16)),
{
    let f1 = y1 - 25;
    let f2 = y2 - 25;
    assert(in_sun(x1, y1) && in_sun(x2, y2));
    assert(0 <= f1 <= f2 <= 90) by (nonlinear_arith)
        requires
            (x1 - 160) * (x1 - 160) + (y1 - 70) * (y1 - 70) <= 45 * 45,
            (x2 - 160) * (x2 - 160) + (y2 - 70) * (y2 - 70) <= 45 * 45,
            f1 == y1 - 25,
            f2 == y2 - 25,
            y1 <= y2,
    ;
    lemma_div_is_ordered(f1 * 3, f2 * 3, 90);
    lemma_div_is_ordered(f1 * 45, f2 * 45, 90);
    lemma_div_is_ordered(f1 * 14, f2 * 14, 90);
    lemma_div_is_ordered(f1 * 3, 270, 90);
    lemma_div_is_ordered(f1 * 45, 4050, 90);
    lemma_div_is_ordered(f1 * 14, 1260, 90);
    lemma_div_is_ordered(f2 * 3, 270, 90);
    lemma_div_is_ordered(f2 * 45, 4050, 90);
    lemma_div_is_ordered(f2 * 14, 1260, 90);
    vstd::arithmetic::div_mod::lemma_div_pos_is_pos(f1 * 3, 90);
    vstd::arithmetic::div_mod::lemma_div_pos_is_pos(f1 * 45, 90);
    vstd::arithmetic::div_mod::lemma_div_pos_is_pos(f1 * 14, 90);
    vstd::arithmetic::div_mod::lemma_div_pos_is_pos(f2 * 3, 90);
    vstd::arithmetic::div_mod::lemma_div_pos_is_pos(f2 * 45, 90);
    vstd::arithmetic::div_mod::lemma_div_pos_is_pos(f2 * 14, 90);
    lemma_rgb565_channels(max(31 - f1 * 3 / 90, 0), max(50 - f1 * 45 / 90, 0), max(16 - f1 * 14 / 90, 0));
    lemma_rgb565_channels(max(31 - f2 * 3 / 90, 0), max(50 - f2 * 45 / 90, 0), max(16 - f2 * 14 / 90, 0));
    lemma_rgb565_channels(31, 50, 16);
    assert(in_sun(160, 25));
    assert(!sun_stripe(0));
}

} // verus!
