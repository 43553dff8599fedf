//! The laser scene: beams that fire across the screen from its edges, fade
//! out, and are redrawn each frame behind the bright green "KADI" title, with
//! a few faint sparks in the background.

use crate::color::{rgb, rgb565};
use crate::font::{GLYPH_H, GLYPH_W};
use crate::framebuffer::{on_screen, pixel_index, Framebuffer, HEIGHT, PIXELS, WIDTH};
use crate::laser_font::{is_laser_text_pixel, laser_text_lit, GLYPH_GAP};
use crate::laser_line::{
    at_end, draw_laser_line, laser_line, last_step, lemma_line_reaches_end, line_fits, walk, MAX_STEPS,
};
use crate::rng::{prng, prng_spec};
use vstd::math::{abs, max, min};
use vstd::prelude::*;
use vstd::wrapping::u32_specs::{wrapping_mul, wrapping_sub};

verus! {

/// Number of beam slots.
pub const NUM_BEAMS: usize = 12;

/// The title, "KADI".
pub const NAME: [u8; 4] = [75, 65, 68, 73];

/// Scale of the title's font pixels.
pub const TEXT_SCALE: u32 = 10;

/// Number of sparks scattered over each frame.
pub const NUM_SPARKS: u32 = 20;

/// A beam lives until it is older than this many frames.
pub const BEAM_LIFE: u32 = 15;

/// Left edge of the title: centred on the screen.
pub open spec fn title_x() -> int {
    (WIDTH - (4 * (GLYPH_W + GLYPH_GAP) * TEXT_SCALE - GLYPH_GAP * TEXT_SCALE)) / 2
}

/// Top edge of the title: centred on the screen.
pub open spec fn title_y() -> int {
    (HEIGHT - GLYPH_H * TEXT_SCALE) / 2
}

/// Whether the screen point `(x, y)` belongs to the title.
pub open spec fn in_title(x: int, y: int) -> bool {
    laser_text_lit(x, y, title_x(), title_y(), TEXT_SCALE as int, NAME@)
}

/// Colour of the title: bright green.
pub open spec fn title_color() -> int {
    rgb565(4, 55, 3)
}

/// A laser beam from `(x0, y0)` to `(x1, y1)`, fired in frame `birth`; a
/// slot whose beam is not `active` is free.
#[derive(Clone, Copy)]
pub struct Beam {
    pub x0: i32,
    pub y0: i32,
    pub x1: i32,
    pub y1: i32,
    pub birth: u32,
    pub active: bool,
}

/// Frames since `birth`, counted modulo 2^32 as the frame counter wraps.
pub open spec fn beam_age(frame: u32, birth: u32) -> u32 {
    wrapping_sub(frame, birth)
}

/// Whether `(x, y)` lies just outside one of the screen's edges, five pixels
/// off it.
pub open spec fn on_edge(x: int, y: int) -> bool {
    ||| 0 <= x < WIDTH && (y == -5 || y == HEIGHT + 5)
    ||| 0 <= y < HEIGHT && (x == -5 || x == WIDTH + 5)
}

/// A point just off a screen edge: `edge_roll` picks the edge (top, bottom,
/// left, right) and `pos_roll` the position along it.
pub open spec fn edge_point(edge_roll: u32, pos_roll: u32) -> (int, int) {
    let e = edge_roll % 4;
    if e == 0 {
        ((pos_roll % (WIDTH as u32)) as int, -5)
    } else if e == 1 {
        ((pos_roll % (WIDTH as u32)) as int, HEIGHT + 5)
    } else if e == 2 {
        (-5, (pos_roll % (HEIGHT as u32)) as int)
    } else {
        (WIDTH + 5, (pos_roll % (HEIGHT as u32)) as int)
    }
}

/// Which screen edge a point just off the screen lies beside: 0 top,
/// 1 bottom, 2 left, 3 right.
pub open spec fn edge_of(x: int, y: int) -> int {
    if y == -5 {
        0
    } else if y == HEIGHT + 5 {
        1
    } else if x == -5 {
        2
    } else {
        3
    }
}

/// Squared distance between two points.
pub open spec fn dist_sq(p: (int, int), q: (int, int)) -> int {
    (q.0 - p.0) * (q.0 - p.0) + (q.1 - p.1) * (q.1 - p.1)
}

/// The beam in a slot after it has been retired, if it is active and older
/// than `BEAM_LIFE`.
pub open spec fn retire(b: Beam, frame: u32) -> Beam {
    if b.active && beam_age(frame, b.birth) > BEAM_LIFE {
        Beam { active: false, ..b }
    } else {
        b
    }
}

/// One slot's update in frame `frame` with the generator at `rng`: the slot's
/// beam (retired if old), then, if the slot is free, a one-in-twelve roll to
/// fire a new beam between two random edge points, which must lie on
/// different edges and more than 100 pixels apart. Gives the slot's beam,
/// the generator and whether it fired.
pub open spec fn update_slot(b: Beam, rng: u32, frame: u32) -> (Beam, u32, bool) {
    let b1 = retire(b, frame);
    if b1.active {
        (b1, rng, false)
    } else {
        let r1 = prng_spec(rng);
        if r1 % 12 == 0 {
            let r2 = prng_spec(r1);
            let r3 = prng_spec(r2);
            let r4 = prng_spec(r3);
            let r5 = prng_spec(r4);
            let p0 = edge_point(r2, r3);
            let p1 = edge_point(r4, r5);
            if edge_of(p0.0, p0.1) != edge_of(p1.0, p1.1) && dist_sq(p0, p1) > 100 * 100 {
                (
                    Beam {
                        x0: p0.0 as i32,
                        y0: p0.1 as i32,
                        x1: p1.0 as i32,
                        y1: p1.1 as i32,
                        birth: frame,
                        active: true,
                    },
                    r5,
                    true,
                )
            } else {
                (b1, r5, false)
            }
        } else {
            (b1, r1, false)
        }
    }
}

/// The beams, the generator and the number of beams fired after updating the
/// first `n` slots in order.
pub open spec fn update_beams(beams: Seq<Beam>, rng: u32, frame: u32, n: nat) -> (Seq<Beam>, u32, nat)
    decreases n,
{
    if n == 0 {
        (beams, rng, 0)
    } else {
        let (bs, r, fired) = update_beams(beams, rng, frame, (n - 1) as nat);
        let (b, r2, f) = update_slot(bs[n - 1], r, frame);
        (bs.update(n - 1, b), r2, if f { fired + 1 } else { fired })
    }
}

/// Brightness of a beam of the given age: a bright flash, a hold, then a
/// fade to nothing.
pub open spec fn beam_brightness(age: int) -> int {
    if age < 3 {
        255
    } else if age < 8 {
        180
    } else {
        min(BEAM_LIFE - age, 7) * 20
    }
}

/// The pixels after drawing the active beams among the first `n` slots.
pub open spec fn draw_beams(pixels: Seq<u16>, beams: Seq<Beam>, frame: u32, n: nat) -> Seq<u16>
    decreases n,
{
    if n == 0 {
        pixels
    } else {
        let prev = draw_beams(pixels, beams, frame, (n - 1) as nat);
        let b = beams[n - 1];
        let brightness = beam_brightness(beam_age(frame, b.birth) as int);
        if b.active && brightness > 0 {
            laser_line(prev, b.x0 as int, b.y0 as int, b.x1 as int, b.y1 as int, brightness)
        } else {
            prev
        }
    }
}

/// The pixels with the title painted over them.
pub open spec fn overlay_title(pixels: Seq<u16>) -> Seq<u16> {
    Seq::new(
        pixels.len(),
        |i: int|
            if in_title(i % WIDTH as int, i / WIDTH as int) {
                title_color() as u16
            } else {
                pixels[i]
            },
    )
}

/// The pixels after `n` sparks drawn from the generator at `rng`: each takes
/// three values, for its column, its row and its brightness, and is skipped
/// where it would cover the title.
pub open spec fn sparks(pixels: Seq<u16>, rng: u32, n: nat) -> Seq<u16>
    decreases n,
{
    if n == 0 {
        pixels
    } else {
        let r1 = prng_spec(rng);
        let r2 = prng_spec(r1);
        let r3 = prng_spec(r2);
        let sx = (r1 % (WIDTH as u32)) as int;
        let sy = (r2 % (HEIGHT as u32)) as int;
        let bright = (r3 % 6) as int;
        let next = if !in_title(sx, sy) {
            pixels.update(pixel_index(sx, sy), rgb565(0, bright + 1, 0) as u16)
        } else {
            pixels
        };
        sparks(next, r3, (n - 1) as nat)
    }
}

/// The frame drawn for `beams` in frame `frame`: black, then the beams,
/// then the title on top, then the sparks around it.
pub open spec fn laser_frame(beams: Seq<Beam>, frame: u32) -> Seq<u16> {
    let black = Seq::new(PIXELS as nat, |i: int| 0u16);
    sparks(
        overlay_title(draw_beams(black, beams, frame, NUM_BEAMS as nat)),
        wrapping_mul(frame, 7919),
        NUM_SPARKS as nat,
    )
}

/// Whether a beam can be drawn without overflowing line drawing's
/// arithmetic.
pub open spec fn beam_fits(b: Beam) -> bool {
    line_fits(b.x0 as int, b.y0 as int, b.x1 as int, b.y1 as int)
}

/// The edge beside a point just off the screen.
fn edge_index(x: i32, y: i32) -> (e: u8)
    ensures
        e == edge_of(x as int, y as int),
{
    if y == -5 {
        0
    } else if y == HEIGHT + 5 {
        1
    } else if x == -5 {
        2
    } else {
        3
    }
}

/// Picks a random point just off a screen edge, advancing the generator
/// twice: once to choose the edge and once for the position along it.
pub fn random_edge_point(rng: &mut u32) -> (p: (i32, i32))
    ensures
        *final(rng) == prng_spec(prng_spec(*old(rng))),
        (p.0 as int, p.1 as int) == edge_point(prng_spec(*old(rng)), *final(rng)),
{
    *rng = prng(*rng);
    let edge = *rng % 4;
    *rng = prng(*rng);
    match edge {
        0 => ((*rng % WIDTH as u32) as i32, -5),
        1 => ((*rng % WIDTH as u32) as i32, HEIGHT + 5),
        2 => (-5, (*rng % HEIGHT as u32) as i32),
        _ => (WIDTH + 5, (*rng % HEIGHT as u32) as i32),
    }
}

/// After the first `n` slots are updated, each of them that is active holds a
/// beam no older than `BEAM_LIFE`; the slots are neither added nor removed,
/// and at most `n` beams have fired.
pub proof fn lemma_updated_beams_young(beams: Seq<Beam>, rng: u32, frame: u32, n: nat)
    requires
        n <= beams.len(),
    ensures
        ({
            let u = update_beams(beams, rng, frame, n);
            &&& u.0.len() == beams.len()
            &&& u.2 <= n
            &&& forall|j: int|
                0 <= j < n && (#[trigger] u.0[j]).active ==> beam_age(frame, u.0[j].birth)
                    <= BEAM_LIFE
            &&& forall|j: int| n <= j < beams.len() ==> #[trigger] u.0[j] == beams[j]
        }),
    decreases n,
{
    if n > 0 {
        lemma_updated_beams_young(beams, rng, frame, (n - 1) as nat);
        assert(beam_age(frame, frame) == 0);
    }
}

/// What the laser scene keeps from one frame to the next: its beam slots
/// and its random generator.
pub struct LaserState {
    beams: Vec<Beam>,
    rng: u32,
}

impl View for LaserState {
    type V = (Seq<Beam>, u32);

    closed spec fn view(&self) -> (Seq<Beam>, u32) {
        (self.beams@, self.rng)
    }
}

impl LaserState {
    /// There is one beam per slot, and every beam's ends lie within the
    /// coordinate limit of line drawing.
    pub open spec fn wf(&self) -> bool {
        &&& self@.0.len() == NUM_BEAMS
        &&& forall|i: int| 0 <= i < NUM_BEAMS ==> beam_fits(#[trigger] self@.0[i])
    }

    /// All slots free, the generator seeded with 54321.
    pub fn new() -> (s: LaserState)
        ensures
            s.wf(),
            s@.1 == 54321,
            forall|i: int|
                0 <= i < NUM_BEAMS ==> #[trigger] s@.0[i] == (Beam {
                    x0: 0,
                    y0: 0,
                    x1: 0,
                    y1: 0,
                    birth: 0,
                    active: false,
                }),
    {
        let empty = Beam { x0: 0, y0: 0, x1: 0, y1: 0, birth: 0, active: false };
        let mut beams: Vec<Beam> = Vec::new();
        while beams.len() < NUM_BEAMS
            invariant
                beams.len() <= NUM_BEAMS,
                forall|i: int| 0 <= i < beams.len() ==> #[trigger] beams@[i] == empty,
            decreases NUM_BEAMS - beams.len(),
        {
            beams.push(empty);
        }
        LaserState { beams, rng: 54321 }
    }

    /// The beam in slot `i`.
    pub fn beam(&self, i: usize) -> (b: Beam)
        requires
            i < self@.0.len(),
        ensures
            b == self@.0[i as int],
    {
        self.beams[i]
    }

    /// The current value of the random generator.
    pub fn rng(&self) -> (r: u32)
        ensures
            r == self@.1,
    {
        self.rng
    }

    /// Retires old beams and fires new ones into free slots, in slot order;
    /// gives the number of beams fired.
    fn update_beams(&mut self, frame: u32) -> (new_fires: u32)
        requires
            old(self).wf(),
        ensures
            final(self).wf(),
            ({
                let u = update_beams(old(self)@.0, old(self)@.1, frame, NUM_BEAMS as nat);
                &&& final(self)@ == (u.0, u.1)
                &&& new_fires == u.2
            }),
    {
        let mut new_fires: u32 = 0;
        let mut i: usize = 0;
        while i < NUM_BEAMS
            invariant
                0 <= i <= NUM_BEAMS,
                self.wf(),
                new_fires <= i,
                ({
                    let u = update_beams(old(self)@.0, old(self)@.1, frame, i as nat);
                    &&& self@ == (u.0, u.1)
                    &&& new_fires == u.2
                }),
            decreases NUM_BEAMS - i,
        {
            let mut b = self.beams[i];
            if b.active {
                let age = frame.wrapping_sub(b.birth);
                if age > 15 {
                    b.active = false;
                }
            }
            if !b.active {
                // Roughly one chance in twelve per free slot and frame.
                self.rng = prng(self.rng);
                if self.rng % 12 == 0 {
                    let (x0, y0) = random_edge_point(&mut self.rng);
                    let (x1, y1) = random_edge_point(&mut self.rng);
                    // The ends must lie on different edges, not too close together.
                    assert((x1 - x0) * (x1 - x0) <= 400 * 400 && (y1 - y0) * (y1 - y0) <= 400 * 400
                        && 0 <= (x1 - x0) * (x1 - x0) && 0 <= (y1 - y0) * (y1 - y0)) by (nonlinear_arith)
                        requires
                            -400 <= x1 - x0 <= 400,
                            -400 <= y1 - y0 <= 400,
                    ;
                    let dist_sq = (x1 - x0) * (x1 - x0) + (y1 - y0) * (y1 - y0);
                    if edge_index(x0, y0) != edge_index(x1, y1) && dist_sq > 100 * 100 {
                        b = Beam { x0, y0, x1, y1, birth: frame, active: true };
                        new_fires += 1;
                    }
                }
            }
            self.beams.set(i, b);
            i += 1;
        }
        new_fires
    }
}

/// Draws the active beams, each with the brightness of its age.
fn draw_beams_into(fb: &mut Framebuffer, state: &LaserState, frame: u32)
    requires
        old(fb).wf(),
        state.wf(),
        forall|j: int|
            0 <= j < NUM_BEAMS && (#[trigger] state@.0[j]).active ==> beam_age(frame, state@.0[j].birth)
                <= BEAM_LIFE,
    ensures
        final(fb).wf(),
        final(fb)@ == draw_beams(old(fb)@, state@.0, frame, NUM_BEAMS as nat),
{
    let mut i: usize = 0;
    while i < NUM_BEAMS
        invariant
            0 <= i <= NUM_BEAMS,
            fb.wf(),
            state.wf(),
            forall|j: int|
                0 <= j < NUM_BEAMS && (#[trigger] state@.0[j]).active ==> beam_age(
                    frame,
                    state@.0[j].birth,
                ) <= BEAM_LIFE,
            fb@ == draw_beams(old(fb)@, state@.0, frame, i as nat),
        decreases NUM_BEAMS - i,
    {
        let b = state.beam(i);
        if b.active {
            let age = frame.wrapping_sub(b.birth);
            // A bright flash, a hold, then a fade.
            let brightness: u8 = if age < 3 {
                255
            } else if age < 8 {
                180
            } else {
                let fade = (15 - age).min(7) as u8;
                fade * 20
            };
            if brightness > 0 {
                draw_laser_line(fb, b.x0, b.y0, b.x1, b.y1, brightness);
            }
        }
        i += 1;
    }
}

/// Paints the title over the screen, opaque.
fn draw_title(fb: &mut Framebuffer, tox: i32, toy: i32)
    requires
        old(fb).wf(),
        tox == title_x(),
        toy == title_y(),
    ensures
        final(fb).wf(),
        final(fb)@ == overlay_title(old(fb)@),
{
    let ts: u32 = 10;
    assert(GLYPH_H * ts <= u32::MAX) by (nonlinear_arith)
        requires
            GLYPH_H == 7,
            ts == 10,
    ;
    let mut y: i32 = 0;
    while y < HEIGHT
        invariant
            0 <= y <= HEIGHT,
            fb.wf(),
            ts == TEXT_SCALE,
            GLYPH_H * ts <= u32::MAX,
            tox == title_x(),
            toy == title_y(),
            forall|xx: int, yy: int|
                on_screen(xx, yy) ==> #[trigger] fb@[pixel_index(xx, yy)] == if yy < y && in_title(
                    xx,
                    yy,
                ) {
                    title_color() as u16
                } else {
                    old(fb)@[pixel_index(xx, yy)]
                },
        decreases HEIGHT - y,
    {
        let mut x: i32 = 0;
        while x < WIDTH
            invariant
                0 <= y < HEIGHT,
                0 <= x <= WIDTH,
                fb.wf(),
                ts == TEXT_SCALE,
                GLYPH_H * ts <= u32::MAX,
                tox == title_x(),
                toy == title_y(),
                forall|xx: int, yy: int|
                    on_screen(xx, yy) ==> #[trigger] fb@[pixel_index(xx, yy)] == if (yy < y || (yy
                        == y && xx < x)) && in_title(xx, yy) {
                        title_color() as u16
                    } else {
                        old(fb)@[pixel_index(xx, yy)]
                    },
            decreases WIDTH - x,
        {
            if is_laser_text_pixel(x, y, tox, toy, ts, &NAME) {
                fb.put((y * WIDTH + x) as usize, rgb(4, 55, 3));
            }
            x += 1;
        }
        y += 1;
    }
    assert forall|i: int| 0 <= i < PIXELS implies #[trigger] fb@[i] == overlay_title(old(fb)@)[i] by {
        let xx = i % WIDTH as int;
        let yy = i / WIDTH as int;
        assert(on_screen(xx, yy) && pixel_index(xx, yy) == i);
    }
    assert(fb@ =~= overlay_title(old(fb)@));
}

/// Scatters the frame's sparks over the background, seeded from the frame
/// number.
fn draw_sparks(fb: &mut Framebuffer, frame: u32, tox: i32, toy: i32)
    requires
        old(fb).wf(),
        tox == title_x(),
        toy == title_y(),
    ensures
        final(fb).wf(),
        final(fb)@ == sparks(old(fb)@, wrapping_mul(frame, 7919), NUM_SPARKS as nat),
{
    let ts: u32 = 10;
    assert(GLYPH_H * ts <= u32::MAX) by (nonlinear_arith)
        requires
            GLYPH_H == 7,
            ts == 10,
    ;
    let mut spark_rng = frame.wrapping_mul(7919);
    let mut k: u32 = 0;
    while k < 20
        invariant
            0 <= k <= NUM_SPARKS,
            fb.wf(),
            ts == TEXT_SCALE,
            GLYPH_H * ts <= u32::MAX,
            tox == title_x(),
            toy == title_y(),
            sparks(fb@, spark_rng, (NUM_SPARKS - k) as nat) == sparks(
                old(fb)@,
                wrapping_mul(frame, 7919),
                NUM_SPARKS as nat,
            ),
        decreases NUM_SPARKS - k,
    {
        spark_rng = prng(spark_rng);
        let sx = (spark_rng % WIDTH as u32) as i32;
        spark_rng = prng(spark_rng);
        let sy = (spark_rng % HEIGHT as u32) as i32;
        spark_rng = prng(spark_rng);
        let bright = (spark_rng % 6) as u8;
        if !is_laser_text_pixel(sx, sy, tox, toy, ts, &NAME) {
            fb.put((sy * WIDTH + sx) as usize, rgb(0, bright + 1, 0));
        }
        k += 1;
    }
}

/// Renders frame number `frame` of the laser scene into `fb`: retires old
/// beams and fires new ones, then draws the frame `laser_frame` of the
/// updated beams. Gives the number of beams fired in this frame.
pub fn render_lasers(fb: &mut Framebuffer, frame: u32, state: &mut LaserState) -> (new_fires: u32)
    requires
        old(fb).wf(),
        old(state).wf(),
    ensures
        final(fb).wf(),
        final(state).wf(),
        ({
            let u = update_beams(old(state)@.0, old(state)@.1, frame, NUM_BEAMS as nat);
            &&& final(state)@ == (u.0, u.1)
            &&& new_fires == u.2
        }),
        final(fb)@ == laser_frame(final(state)@.0, frame),
{
    // The title is centred on the screen.
    let ts: u32 = 10;
    assert(GLYPH_W == 5 && GLYPH_GAP == 1 && GLYPH_H == 7);
    let tw = NAME.len() as i32 * (GLYPH_W as i32 + GLYPH_GAP as i32) * ts as i32 - GLYPH_GAP as i32
        * ts as i32;
    let tox = (WIDTH - tw) / 2;
    let toy = (HEIGHT - (GLYPH_H * ts) as i32) / 2;

    // Clear to black.
    fb.fill(rgb(0, 0, 0));
    assert(fb@ =~= Seq::new(PIXELS as nat, |i: int| 0u16));

    let new_fires = state.update_beams(frame);
    proof {
        lemma_updated_beams_young(old(state)@.0, old(state)@.1, frame, NUM_BEAMS as nat);
    }

    // The beams go behind the title, the sparks around it.
    draw_beams_into(fb, state, frame);
    draw_title(fb, tox, toy);
    draw_sparks(fb, frame, tox, toy);
    new_fires
}

/// Sparks never cover the title: every title pixel keeps its value.
proof fn lemma_sparks_keep_title(pixels: Seq<u16>, rng: u32, n: nat)
    requires
        pixels.len() == PIXELS,
    ensures
        sparks(pixels, rng, n).len() == PIXELS,
        forall|x: int, y: int|
            on_screen(x, y) && in_title(x, y) ==> #[trigger] sparks(pixels, rng, n)[pixel_index(x, y)]
                == pixels[pixel_index(x, y)],
    decreases n,
{
    if n > 0 {
        let r1 = prng_spec(rng);
        let r2 = prng_spec(r1);
        let r3 = prng_spec(r2);
        let sx = (r1 % (WIDTH as u32)) as int;
        let sy = (r2 % (HEIGHT as u32)) as int;
        let bright = (r3 % 6) as int;
        let next = if !in_title(sx, sy) {
            pixels.update(pixel_index(sx, sy), rgb565(0, bright + 1, 0) as u16)
        } else {
            pixels
        };
        lemma_sparks_keep_title(next, r3, (n - 1) as nat);
    }
}

/// The title is drawn on top: in every frame, each of its pixels has the
/// title's colour, whatever beams cross it.
pub proof fn lemma_title_on_top(beams: Seq<Beam>, frame: u32)
    ensures
        laser_frame(beams, frame).len() == PIXELS,
        forall|x: int, y: int|
            on_screen(x, y) && in_title(x, y) ==> #[trigger] laser_frame(beams, frame)[pixel_index(x, y)]
                == title_color(),
{
    let black = Seq::new(PIXELS as nat, |i: int| 0u16);
    lemma_draw_beams_len(black, beams, frame, NUM_BEAMS as nat);
    let titled = overlay_title(draw_beams(black, beams, frame, NUM_BEAMS as nat));
    lemma_sparks_keep_title(titled, wrapping_mul(frame, 7919), NUM_SPARKS as nat);
    assert forall|x: int, y: int| on_screen(x, y) && in_title(x, y) implies #[trigger] titled[pixel_index(
        x,
        y,
    )] == title_color() by {
        let i = pixel_index(x, y);
        assert(i % WIDTH as int == x && i / WIDTH as int == y);
        crate::color::lemma_rgb565_channels(4, 55, 3);
    }
}

/// Drawing beams keeps the number of pixels.
proof fn lemma_draw_beams_len(pixels: Seq<u16>, beams: Seq<Beam>, frame: u32, n: nat)
    requires
        pixels.len() == PIXELS,
    ensures
        draw_beams(pixels, beams, frame, n).len() == PIXELS,
    decreases n,
{
    if n > 0 {
        lemma_draw_beams_len(pixels, beams, frame, (n - 1) as nat);
        let prev = draw_beams(pixels, beams, frame, (n - 1) as nat);
        let b = beams[n - 1];
        let brightness = beam_brightness(beam_age(frame, b.birth) as int);
        if b.active && brightness > 0 {
            crate::laser_line::lemma_laser_line_len(
                prev,
                b.x0 as int,
                b.y0 as int,
                b.x1 as int,
                b.y1 as int,
                brightness,
            );
        }
    }
}

/// Whether a beam, if active, runs between two points just off different
/// edges of the screen that lie more than 100 pixels apart.
pub open spec fn beam_placed(b: Beam) -> bool {
    b.active ==> {
        &&& on_edge(b.x0 as int, b.y0 as int)
        &&& on_edge(b.x1 as int, b.y1 as int)
        &&& edge_of(b.x0 as int, b.y0 as int) != edge_of(b.x1 as int, b.y1 as int)
        &&& dist_sq((b.x0 as int, b.y0 as int), (b.x1 as int, b.y1 as int)) > 100 * 100
    }
}

/// Every random edge point lies just off the screen edge that its first roll
/// picks.
pub proof fn lemma_edge_point_on_edge(edge_roll: u32, pos_roll: u32)
    ensures
        on_edge(edge_point(edge_roll, pos_roll).0, edge_point(edge_roll, pos_roll).1),
        edge_of(edge_point(edge_roll, pos_roll).0, edge_point(edge_roll, pos_roll).1) == edge_roll % 4,
{
}

/// Updating the beams keeps them placed: if every beam runs between points
/// off two different edges, far enough apart, so does every beam afterwards
/// (in particular every beam fired), and each
/// active one is then no older than `BEAM_LIFE`.
pub proof fn lemma_update_keeps_beams_placed(beams: Seq<Beam>, rng: u32, frame: u32, n: nat)
    requires
        n <= beams.len(),
        forall|j: int| 0 <= j < beams.len() ==> beam_placed(#[trigger] beams[j]),
    ensures
        ({
            let u = update_beams(beams, rng, frame, n);
            &&& forall|j: int| 0 <= j < beams.len() ==> beam_placed(#[trigger] u.0[j])
            &&& forall|j: int|
                0 <= j < n && (#[trigger] u.0[j]).active ==> beam_age(frame, u.0[j].birth)
                    <= BEAM_LIFE
        }),
    decreases n,
{
    lemma_updated_beams_young(beams, rng, frame, n);
    if n > 0 {
        lemma_update_keeps_beams_placed(beams, rng, frame, (n - 1) as nat);
        let prev = update_beams(beams, rng, frame, (n - 1) as nat);
        let r1 = prng_spec(prev.1);
        let r2 = prng_spec(r1);
        let r3 = prng_spec(r2);
        let r4 = prng_spec(r3);
        let r5 = prng_spec(r4);
        lemma_edge_point_on_edge(r2, r3);
        lemma_edge_point_on_edge(r4, r5);
        let p0 = edge_point(r2, r3);
        let p1 = edge_point(r4, r5);
        assert((p0.0 as i32) as int == p0.0 && (p0.1 as i32) as int == p0.1);
        assert((p1.0 as i32) as int == p1.0 && (p1.1 as i32) as int == p1.1);
        lemma_updated_beams_young(beams, rng, frame, (n - 1) as nat);
        let slot = update_slot(prev.0[n - 1], prev.1, frame);
        assert(beam_placed(slot.0));
        let u = update_beams(beams, rng, frame, n);
        assert(u.0 == prev.0.update(n - 1, slot.0));
        assert forall|j: int| 0 <= j < beams.len() implies beam_placed(#[trigger] u.0[j]) by {
            if j != n - 1 {
                assert(u.0[j] == prev.0[j]);
            }
        }
    }
}

/// A beam between two edge points is always drawn all the way to its end:
/// the step limit of line drawing never cuts it short.
pub proof fn lemma_placed_beam_drawn_whole(b: Beam)
    requires
        b.active,
        beam_placed(b),
    ensures
        at_end(
            walk(
                b.x0 as int,
                b.y0 as int,
                b.x1 as int,
                b.y1 as int,
                last_step(b.x0 as int, b.y0 as int, b.x1 as int, b.y1 as int, 0),
            ),
            b.x1 as int,
            b.y1 as int,
        ),
{
    assert(max(abs(b.x1 - b.x0) as int, abs(b.y1 - b.y0) as int) <= MAX_STEPS);
    lemma_line_reaches_end(b.x0 as int, b.y0 as int, b.x1 as int, b.y1 as int);
}

/// A beam fades as it ages: over its life its brightness never rises, it
/// is lit (at most full brightness) before age 15, and at age 15 it is dark.
pub proof fn lemma_beam_fades(a1: int, a2: int)
    requires
        0 <= a1 <= a2 <= BEAM_LIFE,
    ensures
        beam_brightness(a1) >= beam_brightness(a2),
        a1 < BEAM_LIFE ==> 0 < beam_brightness(a1) <= 255,
        beam_brightness(BEAM_LIFE as int) == 0,
{
}

} // verus!
