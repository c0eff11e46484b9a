//! Integer tick arithmetic for frame timing.

use vstd::prelude::*;

verus! {

/// Ticks per second of every manifest this crate writes.
pub const TIMEBASE: u64 = 90_000;

/// `a * b`, held at `u64::MAX` where the product does not fit.
pub open spec fn sat_mul(a: u64, b: u64) -> u64 {
    if a * b > u64::MAX {
        u64::MAX
    } else {
        (a * b) as u64
    }
}

/// `a + b`, held at `u64::MAX` where the sum does not fit.
pub open spec fn sat_add(a: u64, b: u64) -> u64 {
    if a + b > u64::MAX {
        u64::MAX
    } else {
        (a + b) as u64
    }
}

/// The duration of one frame in ticks: `timebase * fps_den / fps_num` rounded
/// to the nearest integer, halves upward, and never less than one tick.
/// Intermediate results saturate at `u64::MAX`. A zero numerator gives one tick.
pub open spec fn frame_ticks(fps_num: u32, fps_den: u32, timebase: u64) -> u64 {
    if fps_num == 0 {
        1
    } else {
        let scaled = sat_mul(timebase, fps_den as u64);
        let rounded = sat_add(scaled, (fps_num / 2) as u64) / (fps_num as u64);
        if rounded < 1 {
            1
        } else {
            rounded as u64
        }
    }
}

/// Saturating multiplication on `u64`.
pub fn saturating_mul(a: u64, b: u64) -> (r: u64)
    ensures
        r == sat_mul(a, b),
{
    match a.checked_mul(b) {
        Some(v) => v,
        None => u64::MAX,
    }
}

/// Computes the duration of one frame in ticks of `timebase`.
pub fn ticks_per_frame(fps_num: u32, fps_den: u32, timebase: u64) -> (ticks: u64)
    ensures
        ticks == frame_ticks(fps_num, fps_den, timebase),
        ticks >= 1,
{
    let num: u64 = saturating_mul(timebase, fps_den as u64);
    let den: u64 = fps_num as u64;
    if den == 0 {
        return 1;
    }
    let rounded: u64 = num.saturating_add(den / 2) / den;
    if rounded < 1 {
        1
    } else {
        rounded
    }
}

} // verus!
