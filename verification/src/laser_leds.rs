//! The LED strip of the laser scene: when beams fire, one to three random
//! LEDs flash green and fade out over a few ticks.

use crate::rng::{prng, prng_spec};
use vstd::math::min;
use vstd::prelude::*;

verus! {

/// The most LEDs the strip may have.
pub const MAX_LEDS: usize = 32;

/// Timers after starting `count` flashes on a strip of `n` LEDs with the
/// generator at `rng`: each flash takes one value for the LED and one for
/// its length of 3 to 7 ticks.
pub open spec fn start_flashes(timers: Seq<u8>, rng: u32, n: nat, count: nat) -> (Seq<u8>, u32)
    decreases count,
{
    if count == 0 {
        (timers, rng)
    } else {
        let r1 = prng_spec(rng);
        let led = (r1 % (n as u32)) as int;
        let r2 = prng_spec(r1);
        let duration = (3 + r2 % 5) as u8;
        start_flashes(timers.update(led, duration), r2, n, (count - 1) as nat)
    }
}

/// Timers and generator after the trigger step of a tick: when beams fired,
/// one roll picks how many flashes (1 to 3) to start.
pub open spec fn trigger(timers: Seq<u8>, rng: u32, n: nat, new_fires: u32) -> (Seq<u8>, u32) {
    if new_fires > 0 {
        let r = prng_spec(rng);
        start_flashes(timers, r, n, (r % 3 + 1) as nat)
    } else {
        (timers, rng)
    }
}

/// Colour of an LED whose timer reads `t`: green (with a little red) as
/// bright as `35·t`, at most 255; dark at zero.
pub open spec fn flash_color(t: u8) -> (int, int, int) {
    if t > 0 {
        let b = min(t * 35, 255);
        (b / 12, b, 0)
    } else {
        (0, 0, 0)
    }
}

/// A timer after one tick: one less, stopping at zero.
pub open spec fn countdown(t: u8) -> u8 {
    if t > 0 {
        (t - 1) as u8
    } else {
        0
    }
}

/// Flash timers of the LED strip and the generator that places the flashes.
pub struct LedFlash {
    timers: Vec<u8>,
    rng: u32,
}

impl View for LedFlash {
    type V = (Seq<u8>, u32);

    closed spec fn view(&self) -> (Seq<u8>, u32) {
        (self.timers@, self.rng)
    }
}

impl LedFlash {
    /// There is one timer for each LED the strip may have, and no flash
    /// has more than 7 ticks left.
    pub open spec fn wf(&self) -> bool {
        &&& self@.0.len() == MAX_LEDS
        &&& forall|i: int| 0 <= i < MAX_LEDS ==> #[trigger] self@.0[i] <= 7
    }

    /// No LED lit, the generator seeded with 99991.
    pub fn new() -> (s: LedFlash)
        ensures
            s.wf(),
            s@.1 == 99991,
            forall|i: int| 0 <= i < MAX_LEDS ==> s@.0[i] == 0,
    {
        let mut timers: Vec<u8> = Vec::new();
        while timers.len() < MAX_LEDS
            invariant
                timers.len() <= MAX_LEDS,
                forall|i: int| 0 <= i < timers.len() ==> timers@[i] == 0,
            decreases MAX_LEDS - timers.len(),
        {
            timers.push(0);
        }
        LedFlash { timers, rng: 99991 }
    }

    /// One tick of the strip of `n` LEDs, after `new_fires` beams fired:
    /// starts flashes if any fired, then gives each LED the colour of its
    /// timer, as (red, green, blue), and counts its timer down.
    pub fn tick(&mut self, n: usize, new_fires: u32) -> (colors: Vec<(u8, u8, u8)>)
        requires
            old(self).wf(),
            n <= MAX_LEDS,
            new_fires > 0 ==> n > 0,
        ensures
            final(self).wf(),
            ({
                let t = trigger(old(self)@.0, old(self)@.1, n as nat, new_fires);
                &&& final(self)@.1 == t.1
                &&& colors@.len() == n
                &&& forall|i: int|
                    0 <= i < n ==> {
                        let c = #[trigger] colors@[i];
                        (c.0 as int, c.1 as int, c.2 as int) == flash_color(t.0[i])
                    }
                &&& forall|i: int| 0 <= i < n ==> #[trigger] final(self)@.0[i] == countdown(t.0[i])
                &&& forall|i: int| n <= i < MAX_LEDS ==> #[trigger] final(self)@.0[i] == t.0[i]
            }),
    {
        let ghost t = trigger(old(self)@.0, old(self)@.1, n as nat, new_fires);
        proof {
            if new_fires > 0 {
                let r = prng_spec(old(self)@.1);
                lemma_flash_lengths(old(self)@.0, r, n as nat, (r % 3 + 1) as nat);
            }
            assert forall|i: int| 0 <= i < MAX_LEDS implies #[trigger] t.0[i] <= 7 by {
                assert(old(self)@.0[i] <= 7);
            }
        }
        // When lasers fire, one to three random LEDs flash.
        if new_fires > 0 {
            self.rng = prng(self.rng);
            let count = (self.rng % 3) + 1;
            let mut k: u32 = 0;
            while k < count
                invariant
                    0 < n <= MAX_LEDS,
                    self.wf(),
                    k <= count,
                    start_flashes(self@.0, self@.1, n as nat, (count - k) as nat) == t,
                decreases count - k,
            {
                self.rng = prng(self.rng);
                let led_idx = (self.rng % n as u32) as usize;
                self.rng = prng(self.rng);
                let duration = 3 + (self.rng % 5) as u8;
                self.timers.set(led_idx, duration);
                k += 1;
            }
        }
        let ghost lit = self@.0;
        assert(lit == t.0 && self@.1 == t.1);
        // Each LED shows its own timer.
        let mut colors: Vec<(u8, u8, u8)> = Vec::new();
        let mut i: usize = 0;
        while i < n
            invariant
                i <= n <= MAX_LEDS,
                self.wf(),
                self@.1 == t.1,
                colors@.len() == i,
                forall|j: int|
                    0 <= j < i ==> {
                        let c = #[trigger] colors@[j];
                        (c.0 as int, c.1 as int, c.2 as int) == flash_color(lit[j])
                    },
                forall|j: int| 0 <= j < i ==> #[trigger] self@.0[j] == countdown(lit[j]),
                forall|j: int| i <= j < MAX_LEDS ==> #[trigger] self@.0[j] == lit[j],
            decreases n - i,
        {
            let t_i = self.timers[i];
            if t_i > 0 {
                let bright = (t_i as u16 * 35).min(255) as u8;
                colors.push((bright / 12, bright, 0));
                self.timers.set(i, t_i - 1);
            } else {
                colors.push((0, 0, 0));
            }
            i += 1;
        }
        colors
    }
}

/// A flash lasts 3 to 7 ticks: every timer that starting flashes changes
/// belongs to one of the `n` LEDs of the strip and is set to between 3 and
/// 7; the others keep their values.
pub proof fn lemma_flash_lengths(timers: Seq<u8>, rng: u32, n: nat, count: nat)
    requires
        0 < n <= MAX_LEDS,
        n <= timers.len(),
    ensures
        ({
            let s = start_flashes(timers, rng, n, count);
            &&& s.0.len() == timers.len()
            &&& forall|i: int| 0 <= i < timers.len() && #[trigger] s.0[i] != timers[i] ==> 3 <= s.0[i] <= 7
            &&& forall|i: int| n <= i < timers.len() ==> #[trigger] s.0[i] == timers[i]
        }),
    decreases count,
{
    if count > 0 {
        let r1 = prng_spec(rng);
        let led = (r1 % (n as u32)) as int;
        let r2 = prng_spec(r1);
        let duration = (3 + r2 % 5) as u8;
        assert(0 <= led < n);
        let next = timers.update(led, duration);
        lemma_flash_lengths(next, r2, n, (count - 1) as nat);
        let s = start_flashes(next, r2, n, (count - 1) as nat);
        assert(s == start_flashes(timers, rng, n, count));
        assert forall|i: int| 0 <= i < timers.len() && #[trigger] s.0[i] != timers[i] implies 3 <= s.0[i]
            <= 7 by {
            if s.0[i] == next[i] {
                assert(i == led);
            }
        }
    }
}

/// As no flash has more than 7 ticks left, brightness never saturates: an
/// LED with `t` ticks left shows `(35·t / 12, 35·t, 0)`.
pub proof fn lemma_flash_color_unsaturated(t: u8)
    requires
        t <= 7,
    ensures
        flash_color(t) == (if t > 0 {
            ((35 * t) / 12, 35 * t, 0int)
        } else {
            (0int, 0int, 0int)
        }),
{
}

/// Whenever beams fired, a flash starts: some LED of the strip is left with
/// at least 3 ticks. How many beams fired does not matter, only whether any
/// did; with none, timers and generator are left alone.
pub proof fn lemma_fires_start_a_flash(timers: Seq<u8>, rng: u32, n: nat, new_fires: u32, other_fires: u32)
    requires
        0 < n <= MAX_LEDS,
        n <= timers.len(),
    ensures
        new_fires > 0 ==> exists|i: int| 0 <= i < n && #[trigger] trigger(timers, rng, n, new_fires).0[i] >= 3,
        (new_fires > 0) == (other_fires > 0) ==> trigger(timers, rng, n, new_fires) == trigger(
            timers,
            rng,
            n,
            other_fires,
        ),
        trigger(timers, rng, n, 0) == (timers, rng),
{
    if new_fires > 0 {
        let r = prng_spec(rng);
        let count = (r % 3 + 1) as nat;
        let r1 = prng_spec(r);
        let led = (r1 % (n as u32)) as int;
        let r2 = prng_spec(r1);
        let duration = (3 + r2 % 5) as u8;
        let next = timers.update(led, duration);
        assert(0 <= led < n);
        lemma_flash_lengths(next, r2, n, (count - 1) as nat);
        let s = start_flashes(next, r2, n, (count - 1) as nat);
        assert(s == start_flashes(timers, r, n, count));
        assert(s.0[led] >= 3);
        assert(trigger(timers, rng, n, new_fires).0[led] >= 3);
    }
}

/// The LEDs that starting `count` flashes can change: at most `count` of them.
proof fn lemma_flash_changes(timers: Seq<u8>, rng: u32, n: nat, count: nat) -> (picked: Set<int>)
    requires
        0 < n <= MAX_LEDS,
        n <= timers.len(),
    ensures
        picked.finite(),
        picked.len() <= count,
        forall|i: int|
            0 <= i < timers.len() && #[trigger] start_flashes(timers, rng, n, count).0[i] != timers[i]
                ==> picked.contains(i),
    decreases count,
{
    if count == 0 {
        Set::empty()
    } else {
        let r1 = prng_spec(rng);
        let led = (r1 % (n as u32)) as int;
        let r2 = prng_spec(r1);
        let duration = (3 + r2 % 5) as u8;
        let next = timers.update(led, duration);
        let rest = lemma_flash_changes(next, r2, n, (count - 1) as nat);
        let s = start_flashes(next, r2, n, (count - 1) as nat);
        assert(s == start_flashes(timers, rng, n, count));
        lemma_flash_lengths(next, r2, n, (count - 1) as nat);
        assert forall|i: int| 0 <= i < timers.len() && #[trigger] s.0[i] != timers[i] implies rest.insert(
            led,
        ).contains(i) by {
            if i != led {
                assert(next[i] == timers[i]);
            }
        }
        vstd::set::axiom_set_insert_finite(rest, led);
        vstd::set::axiom_set_insert_len(rest, led);
        rest.insert(led)
    }
}

/// One to three LEDs flash: a tick's trigger step changes the timers of at
/// most three LEDs, all of the strip.
pub proof fn lemma_at_most_three_flashes(timers: Seq<u8>, rng: u32, n: nat, new_fires: u32)
    requires
        0 < n <= MAX_LEDS,
        n <= timers.len(),
    ensures
        ({
            let changed = Set::new(
                |i: int| 0 <= i < timers.len() && trigger(timers, rng, n, new_fires).0[i] != timers[i],
            );
            &&& changed.finite()
            &&& changed.len() <= 3
            &&& forall|i: int| #[trigger] changed.contains(i) ==> 0 <= i < n
        }),
{
    let t = trigger(timers, rng, n, new_fires);
    let changed = Set::new(|i: int| 0 <= i < timers.len() && t.0[i] != timers[i]);
    if new_fires > 0 {
        let r = prng_spec(rng);
        let count = (r % 3 + 1) as nat;
        let picked = lemma_flash_changes(timers, r, n, count);
        lemma_flash_lengths(timers, r, n, count);
        assert(changed.subset_of(picked));
        vstd::set_lib::lemma_len_subset(changed, picked);
        assert forall|i: int| #[trigger] changed.contains(i) implies 0 <= i < n by {
            if i >= n {
                assert(t.0[i] == timers[i]);
            }
        }
    } else {
        assert(changed =~= Set::empty());
    }
}

} // verus!
