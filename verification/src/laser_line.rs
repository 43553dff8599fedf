//! Additive green laser lines, walked with Bresenham's algorithm: each point
//! of the walk brightens the pixel under it and, more faintly, its two
//! neighbours across the line.

use crate::arith::abs_i32;
use crate::color::{blue_of, green, green_of, lemma_rgb565_channels, red, red_of, rgb, rgb565};
use crate::framebuffer::{on_screen, pixel_index, Framebuffer, HEIGHT, PIXELS, WIDTH};
use vstd::math::{abs, max, min};
use vstd::prelude::*;

verus! {

/// A line stops after this many steps, whether or not it has reached its end.
pub const MAX_STEPS: i32 = 980;

/// Horizontal extent of the line from `x0` to `x1`.
pub open spec fn line_dx(x0: int, x1: int) -> int {
    abs(x1 - x0) as int
}

/// Vertical extent of the line from `y0` to `y1`, negated.
pub open spec fn line_dy(y0: int, y1: int) -> int {
    -abs(y1 - y0)
}

/// Direction of travel along an axis.
pub open spec fn step_dir(a: int, b: int) -> int {
    if a < b {
        1
    } else {
        -1
    }
}

/// One step of the walk from `(cx, cy)` with error term `err`: a step along
/// x where twice the error is at least `dy`, a step along y where it is at
/// most `dx`, or both.
pub open spec fn walk_step(p: (int, int, int), dx: int, dy: int, sx: int, sy: int) -> (int, int, int) {
    let (cx, cy, err) = p;
    let e2 = 2 * err;
    let (cx1, err1) = if e2 >= dy {
        (cx + sx, err + dy)
    } else {
        (cx, err)
    };
    if e2 <= dx {
        (cx1, cy + sy, err1 + dx)
    } else {
        (cx1, cy, err1)
    }
}

/// Position and error term of the walk from `(x0, y0)` toward `(x1, y1)`
/// after `k` steps.
pub open spec fn walk(x0: int, y0: int, x1: int, y1: int, k: nat) -> (int, int, int)
    decreases k,
{
    if k == 0 {
        (x0, y0, line_dx(x0, x1) + line_dy(y0, y1))
    } else {
        walk_step(
            walk(x0, y0, x1, y1, (k - 1) as nat),
            line_dx(x0, x1),
            line_dy(y0, y1),
            step_dir(x0, x1),
            step_dir(y0, y1),
        )
    }
}

/// Whether the walk stands on the end of the line.
pub open spec fn at_end(p: (int, int, int), x1: int, y1: int) -> bool {
    p.0 == x1 && p.1 == y1
}

/// The step at which the walk stops, counting from step `k`: the first that
/// stands on the end of the line, but no later than `MAX_STEPS`.
pub open spec fn last_step(x0: int, y0: int, x1: int, y1: int, k: nat) -> nat
    decreases MAX_STEPS - k,
{
    if k >= MAX_STEPS || at_end(walk(x0, y0, x1, y1, k), x1, y1) {
        k
    } else {
        last_step(x0, y0, x1, y1, k + 1)
    }
}

/// Green added at a point of the line drawn with `brightness`.
pub open spec fn core_green(brightness: int) -> int {
    min(brightness * 63 / 255, 63)
}

/// Red added at a point of the line drawn with `brightness`.
pub open spec fn core_red(brightness: int) -> int {
    min(brightness * 8 / 255, 31)
}

/// Green added beside the line: a third of the core, at least one.
pub open spec fn glow_green(brightness: int) -> int {
    max(core_green(brightness) / 3, 1)
}

/// Red added beside the line: a quarter of the core.
pub open spec fn glow_red(brightness: int) -> int {
    core_red(brightness) / 4
}

/// The colour `c` with `r_add` added to its red and `g_add` to its green,
/// each saturating at its maximum, and no blue.
pub open spec fn brightened(c: int, r_add: int, g_add: int) -> int {
    rgb565(min(red_of(c) + r_add, 31), min(green_of(c) + g_add, 63), 0)
}

/// The pixels after brightening the one at `(x, y)`, if it is on the screen.
pub open spec fn brighten_pixel(pixels: Seq<u16>, x: int, y: int, r_add: int, g_add: int) -> Seq<u16> {
    if on_screen(x, y) {
        pixels.update(
            pixel_index(x, y),
            brightened(pixels[pixel_index(x, y)] as int, r_add, g_add) as u16,
        )
    } else {
        pixels
    }
}

/// Offset from a point of the line to its glow: across a mostly horizontal
/// line it glows above and below, across a mostly vertical one left and right.
pub open spec fn glow_offset(x0: int, y0: int, x1: int, y1: int) -> (int, int) {
    if line_dx(x0, x1) > -line_dy(y0, y1) {
        (0, 1)
    } else {
        (1, 0)
    }
}

/// The pixels after drawing one point `(cx, cy)` of the line: when the point
/// is on the screen, the point itself and then its two glow neighbours.
pub open spec fn draw_point(
    pixels: Seq<u16>,
    cx: int,
    cy: int,
    glow: (int, int),
    brightness: int,
) -> Seq<u16> {
    if on_screen(cx, cy) {
        let p1 = brighten_pixel(pixels, cx, cy, core_red(brightness), core_green(brightness));
        let p2 = brighten_pixel(
            p1,
            cx + glow.0,
            cy + glow.1,
            glow_red(brightness),
            glow_green(brightness),
        );
        brighten_pixel(p2, cx - glow.0, cy - glow.1, glow_red(brightness), glow_green(brightness))
    } else {
        pixels
    }
}

/// The pixels after drawing the first `n` points of the walk.
pub open spec fn draw_walk(
    pixels: Seq<u16>,
    x0: int,
    y0: int,
    x1: int,
    y1: int,
    brightness: int,
    n: nat,
) -> Seq<u16>
    decreases n,
{
    if n == 0 {
        pixels
    } else {
        let p = walk(x0, y0, x1, y1, (n - 1) as nat);
        draw_point(
            draw_walk(pixels, x0, y0, x1, y1, brightness, (n - 1) as nat),
            p.0,
            p.1,
            glow_offset(x0, y0, x1, y1),
            brightness,
        )
    }
}

/// The pixels after drawing the laser line from `(x0, y0)` to `(x1, y1)`:
/// every point of the walk up to the step at which it stops.
pub open spec fn laser_line(
    pixels: Seq<u16>,
    x0: int,
    y0: int,
    x1: int,
    y1: int,
    brightness: int,
) -> Seq<u16> {
    draw_walk(pixels, x0, y0, x1, y1, brightness, last_step(x0, y0, x1, y1, 0) + 1)
}

/// Whether the line's 32-bit arithmetic cannot overflow: each extent, taken
/// three times, fits in an `i32` (twice the error term can reach three times
/// an extent).
pub open spec fn line_fits(x0: int, y0: int, x1: int, y1: int) -> bool {
    3 * abs(x1 - x0) <= i32::MAX && 3 * abs(y1 - y0) <= i32::MAX
}

/// Twice the walk's error term stays between `3·dy` and `3·dx`.
proof fn lemma_walk_bounds(x0: int, y0: int, x1: int, y1: int, k: nat)
    ensures
        ({
            let p = walk(x0, y0, x1, y1, k);
            3 * line_dy(y0, y1) <= 2 * p.2 <= 3 * line_dx(x0, x1)
        }),
    decreases k,
{
    if k > 0 {
        lemma_walk_bounds(x0, y0, x1, y1, (k - 1) as nat);
    }
}

/// Brightens the pixel at `(x, y)` if it is on the screen.
fn brighten_at(fb: &mut Framebuffer, x: i32, y: i32, r_add: u8, g_add: u8)
    requires
        old(fb).wf(),
        r_add < 32,
        g_add < 64,
    ensures
        final(fb).wf(),
        final(fb)@ == brighten_pixel(old(fb)@, x as int, y as int, r_add as int, g_add as int),
{
    if x >= 0 && x < WIDTH && y >= 0 && y < HEIGHT {
        let idx = (y * WIDTH + x) as usize;
        let old = fb.at(idx);
        let ng = (green(old) as u16 + g_add as u16).min(63) as u8;
        let nr = (red(old) as u16 + r_add as u16).min(31) as u8;
        fb.put(idx, rgb(nr, ng, 0));
    }
}

/// Draws the laser line from `(x0, y0)` to `(x1, y1)` with `brightness`,
/// adding green (and a little red) to what is already on the screen.
pub fn draw_laser_line(fb: &mut Framebuffer, x0: i32, y0: i32, x1: i32, y1: i32, brightness: u8)
    requires
        old(fb).wf(),
        line_fits(x0 as int, y0 as int, x1 as int, y1 as int),
    ensures
        final(fb).wf(),
        final(fb)@ == laser_line(old(fb)@, x0 as int, y0 as int, x1 as int, y1 as int, brightness as int),
{
    let dx = abs_i32(x1 - x0);
    let dy = -abs_i32(y1 - y0);
    let sx: i32 = if x0 < x1 { 1 } else { -1 };
    let sy: i32 = if y0 < y1 { 1 } else { -1 };
    let mut err = dx + dy;
    let mut cx = x0;
    let mut cy = y0;

    let g_core = (brightness as u32 * 63 / 255).min(63) as u8;
    let r_core = (brightness as u32 * 8 / 255).min(31) as u8;
    let g_glow = (g_core / 3).max(1);
    let r_glow = r_core / 4;

    let mut steps = 0i32;
    let max_steps = (WIDTH + HEIGHT) * 2;

    let ghost ends = (x0 as int, y0 as int, x1 as int, y1 as int);
    let ghost b = brightness as int;
    loop
        invariant_except_break
            0 <= steps <= MAX_STEPS,
            (cx as int, cy as int, err as int) == walk(x0 as int, y0 as int, x1 as int, y1 as int, steps as nat),
            last_step(x0 as int, y0 as int, x1 as int, y1 as int, 0) == last_step(
                x0 as int,
                y0 as int,
                x1 as int,
                y1 as int,
                steps as nat,
            ),
            fb@ == draw_walk(old(fb)@, x0 as int, y0 as int, x1 as int, y1 as int, b, steps as nat),
        invariant
            fb.wf(),
            max_steps == MAX_STEPS,
            dx == line_dx(x0 as int, x1 as int),
            dy == line_dy(y0 as int, y1 as int),
            sx == step_dir(x0 as int, x1 as int),
            sy == step_dir(y0 as int, y1 as int),
            g_core == core_green(b),
            r_core == core_red(b),
            g_glow == glow_green(b),
            r_glow == glow_red(b),
            line_fits(x0 as int, y0 as int, x1 as int, y1 as int),
        ensures
            fb.wf(),
            fb@ == laser_line(old(fb)@, x0 as int, y0 as int, x1 as int, y1 as int, b),
        decreases MAX_STEPS - steps,
    {
        proof {
            lemma_walk_bounds(x0 as int, y0 as int, x1 as int, y1 as int, steps as nat);
        }
        if cx >= 0 && cx < WIDTH && cy >= 0 && cy < HEIGHT {
            brighten_at(fb, cx, cy, r_core, g_core);
            // The glow lies across the line's main direction.
            let (gx, gy): (i32, i32) = if abs_i32(dx) > abs_i32(dy) {
                (0, 1)
            } else {
                (1, 0)
            };
            brighten_at(fb, cx + gx, cy + gy, r_glow, g_glow);
            brighten_at(fb, cx - gx, cy - gy, r_glow, g_glow);
        }
        assert(fb@ == draw_walk(old(fb)@, x0 as int, y0 as int, x1 as int, y1 as int, b, (steps + 1) as nat));

        if cx == x1 && cy == y1 {
            break;
        }
        steps += 1;
        if steps > max_steps {
            break;
        }
        proof {
            // The next point still lies between the ends.
            lemma_last_step_stops(x0 as int, y0 as int, x1 as int, y1 as int, steps as nat);
            lemma_walk_in_box(x0 as int, y0 as int, x1 as int, y1 as int, steps as nat);
        }

        let e2 = 2 * err;
        if e2 >= dy {
            err += dy;
            cx += sx;
        }
        if e2 <= dx {
            err += dx;
            cy += sy;
        }
    }
}

/// How far the walk has advanced along x, toward `x1`.
pub open spec fn advance_x(p: (int, int, int), x0: int, x1: int) -> int {
    (p.0 - x0) * step_dir(x0, x1)
}

/// How far the walk has advanced along y, toward `y1`.
pub open spec fn advance_y(p: (int, int, int), y0: int, y1: int) -> int {
    (p.1 - y0) * step_dir(y0, y1)
}

/// Every step before the one at which the walk stops is short of the end
/// and below the step limit.
proof fn lemma_before_last_step(x0: int, y0: int, x1: int, y1: int, i: nat, j: nat)
    requires
        i <= j < last_step(x0, y0, x1, y1, i),
    ensures
        !at_end(walk(x0, y0, x1, y1, j), x1, y1),
        j < MAX_STEPS,
        last_step(x0, y0, x1, y1, i) == last_step(x0, y0, x1, y1, j),
    decreases j - i,
{
    if i < j {
        lemma_before_last_step(x0, y0, x1, y1, i + 1, j);
    }
}

/// The walk stops on the end of the line or at the step limit.
proof fn lemma_last_step_stops(x0: int, y0: int, x1: int, y1: int, i: nat)
    ensures
        at_end(walk(x0, y0, x1, y1, last_step(x0, y0, x1, y1, i)), x1, y1) || last_step(
            x0,
            y0,
            x1,
            y1,
            i,
        ) >= MAX_STEPS,
        last_step(x0, y0, x1, y1, i) >= i,
    decreases MAX_STEPS - i,
{
    if !(i >= MAX_STEPS || at_end(walk(x0, y0, x1, y1, i), x1, y1)) {
        lemma_last_step_stops(x0, y0, x1, y1, i + 1);
    }
}

/// Bresenham's walk stays on the ideal line: up to the step at which it
/// stops, it has advanced `a` along x and `b` along y, within the extents `D`
/// and `E` of the line, with `a + b` at least the number of steps, and its
/// error term is `D - E - a·E + b·D`. Its scaled distance from the ideal
/// line, `2·(D - E - err) = 2·(a·E - b·D)`, stays within `max(D, E)`, and
/// every step advances by one along the longer extent.
pub proof fn lemma_walk_advances(x0: int, y0: int, x1: int, y1: int, k: nat)
    requires
        k <= last_step(x0, y0, x1, y1, 0),
    ensures
        ({
            let p = walk(x0, y0, x1, y1, k);
            let d = line_dx(x0, x1);
            let e = -line_dy(y0, y1);
            let a = advance_x(p, x0, x1);
            let b = advance_y(p, y0, y1);
            &&& 0 <= a <= d
            &&& 0 <= b <= e
            &&& a + b >= k
            &&& p.2 == d - e - a * e + b * d
            &&& -max(d, e) <= 2 * (d - e - p.2) <= max(d, e)
            &&& d >= e ==> a == k
            &&& e >= d ==> b == k
        }),
    decreases k,
{
    let d = line_dx(x0, x1);
    let e = -line_dy(y0, y1);
    let sx = step_dir(x0, x1);
    let sy = step_dir(y0, y1);
    if k == 0 {
        let p0 = walk(x0, y0, x1, y1, 0);
        assert(p0.0 == x0 && p0.1 == y0);
        assert((p0.0 - x0) * sx == 0 && (p0.1 - y0) * sy == 0) by (nonlinear_arith)
            requires
                p0.0 == x0,
                p0.1 == y0,
        ;
    } else {
        let k1 = (k - 1) as nat;
        lemma_walk_advances(x0, y0, x1, y1, k1);
        lemma_before_last_step(x0, y0, x1, y1, 0, k1);
        let p = walk(x0, y0, x1, y1, k1);
        let q = walk(x0, y0, x1, y1, k);
        let a = advance_x(p, x0, x1);
        let b = advance_y(p, y0, y1);
        let err = p.2;
        assert(x1 == x0 + sx * d);
        assert(y1 == y0 + sy * e);
        assert(p.0 == x0 + sx * a) by (nonlinear_arith)
            requires
                a == (p.0 - x0) * sx,
                sx == 1 || sx == -1,
        ;
        assert(p.1 == y0 + sy * b) by (nonlinear_arith)
            requires
                b == (p.1 - y0) * sy,
                sy == 1 || sy == -1,
        ;
        let xs = 2 * err >= -e;
        let ys = 2 * err <= d;
        assert(d >= e ==> xs);
        assert(e >= d ==> ys);
        // At least one axis moves.
        assert(xs || ys);
        // Having reached the end's column, the walk does not step past it.
        if a == d {
            assert(b < e) by {
                if b == e {
                    assert(at_end(p, x1, y1));
                }
            }
            assert(2 * err < -e) by (nonlinear_arith)
                requires
                    err == d - e - a * e + b * d,
                    a == d,
                    0 <= b < e,
                    d >= 0,
            ;
        }
        // Having reached the end's row, likewise.
        if b == e {
            assert(a < d) by {
                if a == d {
                    assert(at_end(p, x1, y1));
                }
            }
            assert(2 * err > d) by (nonlinear_arith)
                requires
                    err == d - e - a * e + b * d,
                    b == e,
                    0 <= a < d,
                    e >= 0,
            ;
        }
        let a2 = if xs { a + 1 } else { a };
        let b2 = if ys { b + 1 } else { b };
        assert(q.0 == x0 + sx * a2) by (nonlinear_arith)
            requires
                p.0 == x0 + sx * a,
                q.0 == if xs { p.0 + sx } else { p.0 },
                a2 == if xs { a + 1 } else { a },
        ;
        assert(q.1 == y0 + sy * b2) by (nonlinear_arith)
            requires
                p.1 == y0 + sy * b,
                q.1 == if ys { p.1 + sy } else { p.1 },
                b2 == if ys { b + 1 } else { b },
        ;
        assert(advance_x(q, x0, x1) == a2) by (nonlinear_arith)
            requires
                q.0 == x0 + sx * a2,
                advance_x(q, x0, x1) == (q.0 - x0) * sx,
                sx == 1 || sx == -1,
        ;
        assert(advance_y(q, y0, y1) == b2) by (nonlinear_arith)
            requires
                q.1 == y0 + sy * b2,
                advance_y(q, y0, y1) == (q.1 - y0) * sy,
                sy == 1 || sy == -1,
        ;
        assert(q.2 == d - e - a2 * e + b2 * d) by (nonlinear_arith)
            requires
                err == d - e - a * e + b * d,
                q.2 == err + (if xs { -e } else { 0 }) + (if ys { d } else { 0 }),
                a2 == if xs { a + 1 } else { a },
                b2 == if ys { b + 1 } else { b },
        ;
    }
}

/// Up to the step at which it stops, the walk lies within the box spanned by
/// the two ends of the line.
proof fn lemma_walk_in_box(x0: int, y0: int, x1: int, y1: int, k: nat)
    requires
        k <= last_step(x0, y0, x1, y1, 0),
    ensures
        ({
            let q = walk(x0, y0, x1, y1, k);
            &&& min(x0, x1) <= q.0 <= max(x0, x1)
            &&& min(y0, y1) <= q.1 <= max(y0, y1)
        }),
{
    let sx = step_dir(x0, x1);
    let sy = step_dir(y0, y1);
    let d = line_dx(x0, x1);
    let e = -line_dy(y0, y1);
    lemma_ends(x0, y0, x1, y1);
    lemma_walk_advances(x0, y0, x1, y1, k);
    let q = walk(x0, y0, x1, y1, k);
    let qa = advance_x(q, x0, x1);
    let qb = advance_y(q, y0, y1);
    assert(q.0 == x0 + sx * qa) by (nonlinear_arith)
        requires
            qa == (q.0 - x0) * sx,
            sx == 1 || sx == -1,
    ;
    assert(q.1 == y0 + sy * qb) by (nonlinear_arith)
        requires
            qb == (q.1 - y0) * sy,
            sy == 1 || sy == -1,
    ;
    assert((sx == 1 ==> x0 <= q.0 <= x1) && (sx == -1 ==> x1 <= q.0 <= x0)) by (nonlinear_arith)
        requires
            q.0 == x0 + sx * qa,
            x1 == x0 + sx * d,
            0 <= qa <= d,
    ;
    assert((sy == 1 ==> y0 <= q.1 <= y1) && (sy == -1 ==> y1 <= q.1 <= y0)) by (nonlinear_arith)
        requires
            q.1 == y0 + sy * qb,
            y1 == y0 + sy * e,
            0 <= qb <= e,
    ;
}

/// Each end is the start moved by the line's extent in its direction.
proof fn lemma_ends(x0: int, y0: int, x1: int, y1: int)
    ensures
        x1 == x0 + step_dir(x0, x1) * line_dx(x0, x1),
        y1 == y0 + step_dir(y0, y1) * -line_dy(y0, y1),
{
    let sx = step_dir(x0, x1);
    let sy = step_dir(y0, y1);
    let d = line_dx(x0, x1);
    let e = -line_dy(y0, y1);
    assert(x1 == x0 + sx * d) by (nonlinear_arith)
        requires
            sx == (if x0 < x1 { 1int } else { -1int }),
            d == (if x0 < x1 { x1 - x0 } else { x0 - x1 }),
    ;
    assert(y1 == y0 + sy * e) by (nonlinear_arith)
        requires
            sy == (if y0 < y1 { 1int } else { -1int }),
            e == (if y0 < y1 { y1 - y0 } else { y0 - y1 }),
    ;
}

/// Every point of every laser line lies within the box spanned by its two
/// ends.
pub proof fn lemma_line_in_box(x0: int, y0: int, x1: int, y1: int)
    ensures
        forall|k: nat|
            k <= last_step(x0, y0, x1, y1, 0) ==> {
                let p = #[trigger] walk(x0, y0, x1, y1, k);
                &&& min(x0, x1) <= p.0 <= max(x0, x1)
                &&& min(y0, y1) <= p.1 <= max(y0, y1)
            },
{
    assert forall|k: nat| k <= last_step(x0, y0, x1, y1, 0) implies {
        let p = #[trigger] walk(x0, y0, x1, y1, k);
        &&& min(x0, x1) <= p.0 <= max(x0, x1)
        &&& min(y0, y1) <= p.1 <= max(y0, y1)
    } by {
        lemma_walk_in_box(x0, y0, x1, y1, k);
    }
}

/// A line whose longer extent fits within the step limit is drawn to its
/// very end, `(x1, y1)`, in exactly `max(|x1 - x0|, |y1 - y0|)` steps.
pub proof fn lemma_line_reaches_end(x0: int, y0: int, x1: int, y1: int)
    requires
        max(abs(x1 - x0) as int, abs(y1 - y0) as int) <= MAX_STEPS,
    ensures
        at_end(walk(x0, y0, x1, y1, last_step(x0, y0, x1, y1, 0)), x1, y1),
        last_step(x0, y0, x1, y1, 0) == max(abs(x1 - x0) as int, abs(y1 - y0) as int),
{
    let last = last_step(x0, y0, x1, y1, 0);
    lemma_walk_advances(x0, y0, x1, y1, last);
    lemma_last_step_stops(x0, y0, x1, y1, 0);
    lemma_ends(x0, y0, x1, y1);
    let p = walk(x0, y0, x1, y1, last);
    let sx = step_dir(x0, x1);
    let sy = step_dir(y0, y1);
    let a = advance_x(p, x0, x1);
    let b = advance_y(p, y0, y1);
    let d = line_dx(x0, x1);
    let e = -line_dy(y0, y1);
    assert(p.0 == x0 + sx * a) by (nonlinear_arith)
        requires
            a == (p.0 - x0) * sx,
            sx == 1 || sx == -1,
    ;
    assert(p.1 == y0 + sy * b) by (nonlinear_arith)
        requires
            b == (p.1 - y0) * sy,
            sy == 1 || sy == -1,
    ;
    // Off the end, the walk would be farther from the ideal line than it
    // ever gets.
    if !at_end(p, x1, y1) {
        if d >= e {
            assert(a == d && b < e);
            assert(2 * (d - e - p.2) > max(d, e)) by (nonlinear_arith)
                requires
                    p.2 == d - e - a * e + b * d,
                    a == d,
                    0 <= b < e,
                    d >= e,
                    max(d, e) == d,
            ;
        } else {
            assert(b == e && a < d);
            assert(2 * (d - e - p.2) < -max(d, e)) by (nonlinear_arith)
                requires
                    p.2 == d - e - a * e + b * d,
                    b == e,
                    0 <= a < d,
                    e > d,
                    max(d, e) == e,
            ;
        }
    }
    assert(a == d && b == e) by (nonlinear_arith)
        requires
            p.0 == x0 + sx * a,
            p.1 == y0 + sy * b,
            x1 == x0 + sx * d,
            y1 == y0 + sy * e,
            p.0 == x1,
            p.1 == y1,
            sx == 1 || sx == -1,
            sy == 1 || sy == -1,
    ;
}

/// Drawing a laser line keeps the number of pixels.
pub(crate) proof fn lemma_laser_line_len(pixels: Seq<u16>, x0: int, y0: int, x1: int, y1: int, brightness: int)
    requires
        pixels.len() == PIXELS,
    ensures
        laser_line(pixels, x0, y0, x1, y1, brightness).len() == PIXELS,
{
    lemma_draw_walk_len(pixels, x0, y0, x1, y1, brightness, last_step(x0, y0, x1, y1, 0) + 1);
}

/// Drawing points of a walk keeps the number of pixels.
proof fn lemma_draw_walk_len(
    pixels: Seq<u16>,
    x0: int,
    y0: int,
    x1: int,
    y1: int,
    brightness: int,
    n: nat,
)
    requires
        pixels.len() == PIXELS,
    ensures
        draw_walk(pixels, x0, y0, x1, y1, brightness, n).len() == PIXELS,
    decreases n,
{
    if n > 0 {
        lemma_draw_walk_len(pixels, x0, y0, x1, y1, brightness, (n - 1) as nat);
    }
}

/// Whether `(x, y)` lies within the box from `(lx, ly)` to `(hx, hy)`
/// widened by one pixel on every side.
pub open spec fn near_box(x: int, y: int, lx: int, ly: int, hx: int, hy: int) -> bool {
    lx - 1 <= x <= hx + 1 && ly - 1 <= y <= hy + 1
}

/// Brightening a pixel adds light to it (no channel of red or green
/// decreases anywhere), clears its blue, and leaves every other pixel as it
/// was.
proof fn lemma_brighten_pixel(pixels: Seq<u16>, x: int, y: int, r_add: int, g_add: int)
    requires
        pixels.len() == PIXELS,
        0 <= r_add,
        0 <= g_add,
    ensures
        ({
            let after = brighten_pixel(pixels, x, y, r_add, g_add);
            &&& after.len() == PIXELS
            &&& forall|i: int|
                0 <= i < PIXELS ==> red_of(#[trigger] after[i] as int) >= red_of(pixels[i] as int)
                    && green_of(after[i] as int) >= green_of(pixels[i] as int)
                    && (after[i] == pixels[i] || blue_of(after[i] as int) == 0)
            &&& forall|px: int, py: int|
                on_screen(px, py) && (px != x || py != y) ==> after[pixel_index(px, py)]
                    == #[trigger] pixels[pixel_index(px, py)]
        }),
{
    if on_screen(x, y) {
        let i = pixel_index(x, y);
        let c = pixels[i] as int;
        let r = min(red_of(c) + r_add, 31);
        let g = min(green_of(c) + g_add, 63);
        lemma_rgb565_channels(r, g, 0);
    }
}

/// Drawing the first `n` points of a walk adds light, leaves no blue in a
/// pixel it changes, and changes no pixel that is not within one pixel of
/// the box that holds those points.
proof fn lemma_draw_walk_local(
    pixels: Seq<u16>,
    x0: int,
    y0: int,
    x1: int,
    y1: int,
    brightness: int,
    n: nat,
)
    requires
        pixels.len() == PIXELS,
        0 <= brightness <= 255,
        forall|k: nat|
            k < n ==> {
                let p = #[trigger] walk(x0, y0, x1, y1, k);
                &&& min(x0, x1) <= p.0 <= max(x0, x1)
                &&& min(y0, y1) <= p.1 <= max(y0, y1)
            },
    ensures
        ({
            let after = draw_walk(pixels, x0, y0, x1, y1, brightness, n);
            &&& after.len() == PIXELS
            &&& forall|i: int|
                0 <= i < PIXELS ==> red_of(#[trigger] after[i] as int) >= red_of(pixels[i] as int)
                    && green_of(after[i] as int) >= green_of(pixels[i] as int)
                    && (after[i] == pixels[i] || blue_of(after[i] as int) == 0)
            &&& forall|px: int, py: int|
                on_screen(px, py) && !near_box(px, py, min(x0, x1), min(y0, y1), max(x0, x1), max(y0, y1))
                    ==> after[pixel_index(px, py)] == #[trigger] pixels[pixel_index(px, py)]
        }),
    decreases n,
{
    if n > 0 {
        let n1 = (n - 1) as nat;
        lemma_draw_walk_local(pixels, x0, y0, x1, y1, brightness, n1);
        let before = draw_walk(pixels, x0, y0, x1, y1, brightness, n1);
        let p = walk(x0, y0, x1, y1, n1);
        let g = glow_offset(x0, y0, x1, y1);
        assert(min(x0, x1) <= p.0 <= max(x0, x1) && min(y0, y1) <= p.1 <= max(y0, y1));
        if on_screen(p.0, p.1) {
            let b = brightness;
            let q1 = brighten_pixel(before, p.0, p.1, core_red(b), core_green(b));
            let q2 = brighten_pixel(q1, p.0 + g.0, p.1 + g.1, glow_red(b), glow_green(b));
            lemma_brighten_pixel(before, p.0, p.1, core_red(b), core_green(b));
            lemma_brighten_pixel(q1, p.0 + g.0, p.1 + g.1, glow_red(b), glow_green(b));
            lemma_brighten_pixel(q2, p.0 - g.0, p.1 - g.1, glow_red(b), glow_green(b));
        }
    }
}

/// Drawing a laser line only adds light: no pixel loses any red or green,
/// and every pixel it changes is left without blue. It changes nothing
/// farther than one pixel from the box spanned by its two ends.
pub proof fn lemma_laser_line_adds_light(
    pixels: Seq<u16>,
    x0: int,
    y0: int,
    x1: int,
    y1: int,
    brightness: int,
)
    requires
        pixels.len() == PIXELS,
        0 <= brightness <= 255,
    ensures
        ({
            let after = laser_line(pixels, x0, y0, x1, y1, brightness);
            &&& after.len() == PIXELS
            &&& forall|i: int|
                0 <= i < PIXELS ==> red_of(#[trigger] after[i] as int) >= red_of(pixels[i] as int)
                    && green_of(after[i] as int) >= green_of(pixels[i] as int)
                    && (after[i] == pixels[i] || blue_of(after[i] as int) == 0)
            &&& forall|px: int, py: int|
                on_screen(px, py) && !near_box(px, py, min(x0, x1), min(y0, y1), max(x0, x1), max(y0, y1))
                    ==> after[pixel_index(px, py)] == #[trigger] pixels[pixel_index(px, py)]
        }),
{
    lemma_line_in_box(x0, y0, x1, y1);
    lemma_draw_walk_local(pixels, x0, y0, x1, y1, brightness, last_step(x0, y0, x1, y1, 0) + 1);
}

/// The glow lies across the line: beside a line that runs at least as far
/// vertically as horizontally it glows to the right (and left), beside a
/// mostly horizontal one below (and above).
pub proof fn lemma_glow_across_line(x0: int, y0: int, x1: int, y1: int)
    ensures
        abs(y1 - y0) >= abs(x1 - x0) ==> glow_offset(x0, y0, x1, y1) == (1int, 0int),
        abs(x1 - x0) > abs(y1 - y0) ==> glow_offset(x0, y0, x1, y1) == (0int, 1int),
{
}

} // verus!
