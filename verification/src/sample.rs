//! The canonical sample domain.
//!
//! A canonical sample is a signed 64-bit fixed-point amplitude: `UNIT`
//! (2^32) stands for an amplitude of one, so the nominal range [-1, 1]
//! is [-UNIT, UNIT].

use vstd::prelude::*;

verus! {

/// Fixed-point scale of the canonical domain: this value stands for an
/// amplitude of exactly one.
pub const UNIT: i64 = 4294967296;

/// Half of `UNIT`; the rounding offset used when encoding back to PCM.
pub const HALF_UNIT: i64 = 2147483648;

/// Magnitude of an integer amplitude.
pub open spec fn abs_val(x: int) -> int {
    if x < 0 {
        -x
    } else {
        x
    }
}

/// Saturating 64-bit addition: the sum, clipped to the representable range.
pub open spec fn sat_add(a: int, b: int) -> int {
    if a + b > i64::MAX {
        i64::MAX as int
    } else if a + b < i64::MIN {
        i64::MIN as int
    } else {
        a + b
    }
}

/// A sequence of pure silence.
pub open spec fn all_zero(s: Seq<i64>) -> bool {
    forall|i: int| 0 <= i < s.len() ==> s[i] == 0i64
}

/// Magnitude of a sample, exact also for `i64::MIN`.
pub fn abs_u64(x: i64) -> (r: u64)
    ensures
        r == abs_val(x as int),
{
    if x >= 0 {
        x as u64
    } else {
        ((-(x + 1)) as u64) + 1
    }
}

/// Adds two samples, clipping at the representable range.
pub fn saturating_add_i64(a: i64, b: i64) -> (r: i64)
    ensures
        r as int == sat_add(a as int, b as int),
{
    match a.checked_add(b) {
        Some(s) => s,
        None => if a >= 0 {
            i64::MAX
        } else {
            i64::MIN
        },
    }
}

} // verus!
