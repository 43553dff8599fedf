//! Integer sine from a quarter-wave table.

use vstd::prelude::*;

verus! {

/// One angular turn in the units that `isin` takes.
pub const TURN: i32 = 1024;

/// Amplitude of `isin`: its values lie in `-AMPLITUDE..=AMPLITUDE`.
pub const AMPLITUDE: i32 = 120;

/// 120·sin(k·π/128) for k in 0..=64, rounded: a quarter of a sine wave.
const SIN_Q: [i16; 65] = [
    0, 3, 6, 9, 12, 16, 19, 22, 25, 28, 31, 34, 37, 40, 43, 46,
    49, 51, 54, 57, 60, 62, 65, 67, 70, 72, 75, 77, 79, 81, 84, 86,
    88, 90, 92, 93, 95, 97, 99, 100, 102, 103, 105, 106, 107, 108, 110, 111,
    112, 113, 114, 114, 115, 116, 117, 117, 118, 118, 119, 119, 119, 120, 120, 120,
    120,
];

/// The quarter-wave table as a sequence.
pub open spec fn sin_quarter() -> Seq<int> {
    seq![
        0, 3, 6, 9, 12, 16, 19, 22, 25, 28, 31, 34, 37, 40, 43, 46,
        49, 51, 54, 57, 60, 62, 65, 67, 70, 72, 75, 77, 79, 81, 84, 86,
        88, 90, 92, 93, 95, 97, 99, 100, 102, 103, 105, 106, 107, 108, 110, 111,
        112, 113, 114, 114, 115, 116, 117, 117, 118, 118, 119, 119, 119, 120, 120, 120,
        120,
    ]
}

/// The integer sine of `angle`, where 1024 is a full turn: the angle is taken
/// modulo 1024, its quadrant selects how the quarter-wave table is read
/// (forwards or backwards, positive or negated), and the position within the
/// quadrant is scaled down to one of the 64 table steps.
pub open spec fn isin_spec(angle: int) -> int {
    let a = angle % 1024;
    let quadrant = a / 256;
    let i = (a % 256) / 4;
    if quadrant == 0 {
        sin_quarter()[i]
    } else if quadrant == 1 {
        sin_quarter()[64 - i]
    } else if quadrant == 2 {
        -sin_quarter()[i]
    } else {
        -sin_quarter()[64 - i]
    }
}

proof fn lemma_sin_quarter_bounds()
    ensures
        sin_quarter().len() == 65,
        forall|i: int| 0 <= i < 65 ==> 0 <= #[trigger] sin_quarter()[i] <= 120,
{
    assert forall|i: int| 0 <= i < 65 implies 0 <= #[trigger] sin_quarter()[i] <= 120 by {}
}

/// Integer sine: `120·sin(2π·angle/1024)`, read from a 65-entry table.
pub fn isin(angle: i32) -> (v: i32)
    ensures
        v == isin_spec(angle as int),
        -AMPLITUDE <= v <= AMPLITUDE,
{
    proof {
        lemma_sin_quarter_bounds();
        assert(SIN_Q@ =~= sin_quarter().map_values(|v: int| v as i16));
    }
    let a = ((angle % 1024) + 1024) as u32 % 1024;
    assert(a == (angle as int) % 1024);
    let quadrant = a / 256;
    let idx = (a % 256) as usize;
    let i = idx * 64 / 256;
    let val = match quadrant {
        0 => SIN_Q[i],
        1 => SIN_Q[64 - i],
        2 => -SIN_Q[i],
        _ => -SIN_Q[64 - i],
    };
    val as i32
}

} // verus!

verus! {

/// `isin` repeats after a full turn of 1024.
pub proof fn lemma_isin_periodic(angle: int)
    ensures
        isin_spec(angle + TURN) == isin_spec(angle),
{
    assert((angle + 1024) % 1024 == angle % 1024);
}

/// Half a turn (512) later, `isin` gives the negated value.
pub proof fn lemma_isin_half_turn(angle: int)
    ensures
        isin_spec(angle + TURN / 2) == -isin_spec(angle),
{
    let a = angle % 1024;
    let b = (angle + 512) % 1024;
    assert(b == if a < 512 { a + 512 } else { a - 512 });
    assert(b % 256 == a % 256);
}

/// The quarter-wave table never falls.
proof fn lemma_sin_quarter_rises(i: int, j: int)
    requires
        0 <= i <= j < 65,
    ensures
        sin_quarter()[i] <= sin_quarter()[j],
    decreases j - i,
{
    if i < j {
        assert(sin_quarter()[j - 1] <= sin_quarter()[j]) by {
            assert forall|k: int| 0 <= k < 64 implies #[trigger] sin_quarter()[k] <= sin_quarter()[k
                + 1] by {}
        }
        lemma_sin_quarter_rises(i, j - 1);
    }
}

/// Over the first quarter turn `isin` rises: from 0 at angle 0 to its
/// amplitude at angle 256, never falling on the way.
pub proof fn lemma_isin_rises(a: int, b: int)
    requires
        0 <= a <= b <= TURN / 4,
    ensures
        isin_spec(a) <= isin_spec(b),
        isin_spec(0) == 0,
        isin_spec(TURN / 4) == AMPLITUDE,
{
    let ia = if a < 256 { a / 4 } else { 64 };
    let ib = if b < 256 { b / 4 } else { 64 };
    assert(isin_spec(a) == sin_quarter()[ia]);
    assert(isin_spec(b) == sin_quarter()[ib]);
    lemma_sin_quarter_rises(ia, ib);
}

} // verus!
