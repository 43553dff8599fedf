//! The LED strip of the synthwave scene: pulses stream outward from the
//! middle, like road dashes flying past the car, in rainbow colours that
//! run along the strip and cycle from frame to frame.

use vstd::prelude::*;

verus! {

/// Distance of LED `i` from the middle of a strip of `n` LEDs: the two
/// middle LEDs are at distance 0.
pub open spec fn led_distance(n: int, i: int) -> int {
    let mid = n / 2;
    if i < mid {
        mid - 1 - i
    } else {
        i - mid
    }
}

/// Brightness (0..=40) of LED `i` at `phase`: a short sharp pulse that
/// repeats every 256 phase units, shifted by 60 per LED of distance.
pub open spec fn led_brightness(n: int, i: int, phase: int) -> int {
    let wave = (led_distance(n, i) * 60 + phase) % 256;
    if wave < 40 {
        40 - wave
    } else {
        0
    }
}

/// Hue (0..256) of LED `i` at `phase`: the colour wheel is spread once along
/// the strip and turned by the phase.
pub open spec fn led_hue(n: int, i: int, phase: int) -> int {
    (i * 256 / n + phase) % 256
}

/// The colour wheel at full intensity: red, through green and blue, back to
/// red, with the three channels always adding up to 255.
pub open spec fn hue_rgb(h: int) -> (int, int, int) {
    if h < 85 {
        (255 - 3 * h, 3 * h, 0)
    } else if h < 170 {
        (0, 255 - 3 * (h - 85), 3 * (h - 85))
    } else {
        (3 * (h - 170), 0, 255 - 3 * (h - 170))
    }
}

/// One channel of the wheel dimmed to brightness `b` (out of 255).
pub open spec fn dim(c: int, b: int) -> int {
    c * b / 255
}

/// Colour of LED `i` at `phase`: the rainbow hue of the LED, dimmed to the
/// pulse brightness.
pub open spec fn led_color(n: int, i: int, phase: int) -> (int, int, int) {
    let b = led_brightness(n, i, phase);
    let c = hue_rgb(led_hue(n, i, phase));
    (dim(c.0, b), dim(c.1, b), dim(c.2, b))
}

/// The colour wheel at hue `h`.
pub fn hue_color(h: u32) -> (c: (u32, u32, u32))
    requires
        h < 256,
    ensures
        (c.0 as int, c.1 as int, c.2 as int) == hue_rgb(h as int),
{
    if h < 85 {
        (255 - 3 * h, 3 * h, 0)
    } else if h < 170 {
        (0, 255 - 3 * (h - 85), 3 * (h - 85))
    } else {
        (3 * (h - 170), 0, 255 - 3 * (h - 170))
    }
}

/// A wheel channel dimmed to a pulse brightness stays within that brightness.
proof fn lemma_dim_bound(c: int, b: int)
    requires
        0 <= c <= 255,
        0 <= b <= 40,
    ensures
        0 <= dim(c, b) <= b,
{
    assert(0 <= c * b <= 255 * b) by (nonlinear_arith)
        requires
            0 <= c <= 255,
            0 <= b <= 40,
    ;
    vstd::arithmetic::div_mod::lemma_div_is_ordered(c * b, 255 * b, 255);
    vstd::arithmetic::div_mod::lemma_div_multiples_vanish(b, 255);
    vstd::arithmetic::div_mod::lemma_div_pos_is_pos(c * b, 255);
}

/// The colours of a strip of `n` LEDs at `phase`, as (red, green, blue).
pub fn synthwave_leds(n: usize, phase: u32) -> (colors: Vec<(u8, u8, u8)>)
    requires
        30 * n + phase <= u32::MAX,
    ensures
        colors@.len() == n,
        forall|i: int|
            0 <= i < n ==> {
                let c = #[trigger] colors@[i];
                (c.0 as int, c.1 as int, c.2 as int) == led_color(n as int, i, phase as int)
            },
{
    let mid = n / 2;
    let mut colors: Vec<(u8, u8, u8)> = Vec::new();
    let mut i: usize = 0;
    while i < n
        invariant
            i <= n,
            mid == n / 2,
            30 * n + phase <= u32::MAX,
            colors@.len() == i,
            forall|j: int|
                0 <= j < i ==> {
                    let c = #[trigger] colors@[j];
                    (c.0 as int, c.1 as int, c.2 as int) == led_color(n as int, j, phase as int)
                },
        decreases n - i,
    {
        let dist = if i < mid {
            (mid - 1 - i) as u32
        } else {
            (i - mid) as u32
        };
        // A repeating pulse, streaming outward.
        let wave = ((dist * 60 + phase) % 256) as u8;
        // Sharp pulse shape: bright near 0, dark otherwise.
        let brightness: u32 = if wave < 40 {
            (40 - wave) as u32
        } else {
            0u32
        };
        // The rainbow: the wheel spread along the strip, turned by the phase.
        let hue: u32 = ((i as u64 * 256 / n as u64 + phase as u64) % 256) as u32;
        let (r, g, b) = hue_color(hue);
        proof {
            lemma_dim_bound(r as int, brightness as int);
            lemma_dim_bound(g as int, brightness as int);
            lemma_dim_bound(b as int, brightness as int);
        }
        colors.push(
            ((r * brightness / 255) as u8, (g * brightness / 255) as u8, (b * brightness / 255) as u8),
        );
        i += 1;
    }
    colors
}

/// The phase of the next LED frame: 8 units back, so that the pulses move
/// outward.
pub fn next_led_phase(phase: u32) -> (next: u32)
    requires
        phase <= u32::MAX - 248,
    ensures
        next == (phase + 248) % 256,
{
    (phase + 248) % 256
}

/// On a strip with an even number of LEDs, mirror-image LEDs pulse
/// together: LED `i` and LED `n - 1 - i` are equally bright.
pub proof fn lemma_leds_mirror(n: int, i: int, phase: int)
    requires
        n % 2 == 0,
        0 <= i < n,
    ensures
        led_brightness(n, i, phase) == led_brightness(n, n - 1 - i, phase),
{
}

/// The LED phase in frame `k`, starting from 0 and moving 248 units (8 back)
/// each frame, as `next_led_phase` does.
pub open spec fn led_phase(k: nat) -> int
    decreases k,
{
    if k == 0 {
        0
    } else {
        (led_phase((k - 1) as nat) + 248) % 256
    }
}

/// In frame `k` the phase is `-8·k` modulo 256: the pattern runs back 8 units
/// a frame and repeats every 32 frames; no LED is ever brighter than 40.
pub proof fn lemma_led_phase(k: nat, n: int, i: int)
    ensures
        led_phase(k) == (256 - (8 * k) % 256) % 256,
        0 <= led_phase(k) < 256,
        0 <= led_brightness(n, i, led_phase(k)) <= 40,
    decreases k,
{
    if k > 0 {
        let k1 = (k - 1) as nat;
        lemma_led_phase(k1, n, i);
        let r = (8 * k1) % 256;
        assert((8 * k) % 256 == (r + 8) % 256) by {
            vstd::arithmetic::div_mod::lemma_add_mod_noop((8 * k1) as int, 8, 256);
        }
        assert(r % 8 == 0) by {
            vstd::arithmetic::div_mod::lemma_mod_mod((8 * k1) as int, 8, 32);
            vstd::arithmetic::div_mod::lemma_mod_multiples_basic(k1 as int, 8);
        }
    }
}

/// Adding the same amount to two different hues keeps them different.
proof fn lemma_turn_keeps_apart(a: int, b: int, p: int)
    requires
        0 <= a < 256,
        0 <= b < 256,
        a != b,
        0 <= p,
    ensures
        (a + p) % 256 != (b + p) % 256,
{
    let q = p % 256;
    vstd::arithmetic::div_mod::lemma_add_mod_noop(a, p, 256);
    vstd::arithmetic::div_mod::lemma_add_mod_noop(b, p, 256);
    vstd::arithmetic::div_mod::lemma_small_mod(a as nat, 256);
    vstd::arithmetic::div_mod::lemma_small_mod(b as nat, 256);
    assert(0 <= q < 256);
}

/// At full intensity the wheel always gives the same total light: the three
/// channels add up to 255 and each lies in 0..=255.
pub proof fn lemma_hue_rgb_total(h: int)
    requires
        0 <= h < 256,
    ensures
        hue_rgb(h).0 + hue_rgb(h).1 + hue_rgb(h).2 == 255,
        0 <= hue_rgb(h).0 <= 255,
        0 <= hue_rgb(h).1 <= 255,
        0 <= hue_rgb(h).2 <= 255,
{
}

/// The rainbow runs along the strip: on a strip of at most 256 LEDs, no two
/// LEDs share a hue in the same frame.
pub proof fn lemma_hues_differ_along_strip(n: int, i: int, j: int, phase: int)
    requires
        0 < n <= 256,
        0 <= i < j < n,
        0 <= phase,
    ensures
        led_hue(n, i, phase) != led_hue(n, j, phase),
{
    let a = i * 256 / n;
    let b = j * 256 / n;
    assert(i * 256 + n <= j * 256) by (nonlinear_arith)
        requires
            i < j,
            n <= 256,
    ;
    vstd::arithmetic::div_mod::lemma_hoist_over_denominator(i * 256, 1, n as nat);
    vstd::arithmetic::div_mod::lemma_div_is_ordered(i * 256 + n, j * 256, n);
    vstd::arithmetic::div_mod::lemma_div_pos_is_pos(i * 256, n);
    assert(j * 256 < n * 256) by (nonlinear_arith)
        requires
            j < n,
    ;
    vstd::arithmetic::div_mod::lemma_div_by_multiple_is_strongly_ordered(j * 256, n * 256, 256, n);
    vstd::arithmetic::div_mod::lemma_div_multiples_vanish(256, n);
    assert(0 <= a < b < 256);
    lemma_turn_keeps_apart(a, b, phase);
}

/// The rainbow cycles: over any 32 consecutive frames from the start, each
/// LED shows 32 different hues.
pub proof fn lemma_hue_cycles(n: int, i: int, k1: nat, k2: nat)
    requires
        0 < n,
        0 <= i < n,
        k1 < k2 < 32,
    ensures
        led_hue(n, i, led_phase(k1)) != led_hue(n, i, led_phase(k2)),
{
    lemma_led_phase(k1, n, i);
    lemma_led_phase(k2, n, i);
    vstd::arithmetic::div_mod::lemma_small_mod((8 * k1) as nat, 256);
    vstd::arithmetic::div_mod::lemma_small_mod((8 * k2) as nat, 256);
    let c = i * 256 / n;
    vstd::arithmetic::div_mod::lemma_div_pos_is_pos(i * 256, n);
    lemma_turn_keeps_apart(led_phase(k1), led_phase(k2), c);
}

} // verus!
