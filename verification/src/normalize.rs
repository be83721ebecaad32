//! Peak normalization of the reconstructed signal.
//!
//! A single global pass over the fully reconstructed sequence: if the peak
//! magnitude exceeds full amplitude, every sample is rescaled by
//! `0.95 / peak` (expressed exactly over fixed-point values as
//! `s * 19 * UNIT / (20 * peak)`, truncated toward zero), leaving 5%
//! headroom while preserving relative dynamics; otherwise the signal is
//! returned unchanged.

use vstd::arithmetic::div_mod::{
    lemma_div_denominator, lemma_div_multiples_vanish, lemma_multiply_divide_lt,
};
use vstd::arithmetic::mul::lemma_mul_inequality;
use vstd::prelude::*;

use crate::sample::{abs_u64, abs_val, UNIT};

verus! {

/// Peak magnitude over a whole sequence (zero for an empty sequence).
pub open spec fn peak_val(s: Seq<i64>) -> int
    decreases s.len(),
{
    if s.len() == 0 {
        0
    } else {
        let rest = peak_val(s.drop_last());
        let lastv = abs_val(s.last() as int);
        if lastv > rest {
            lastv
        } else {
            rest
        }
    }
}

/// The peak is nonnegative and bounds every sample's magnitude.
pub proof fn lemma_peak_bounds(s: Seq<i64>)
    ensures
        0 <= peak_val(s),
        forall|i: int| 0 <= i < s.len() ==> abs_val(#[trigger] s[i] as int) <= peak_val(s),
    decreases s.len(),
{
    if s.len() > 0 {
        lemma_peak_bounds(s.drop_last());
        assert forall|i: int| 0 <= i < s.len() implies abs_val(#[trigger] s[i] as int) <= peak_val(
            s,
        ) by {
            if i < s.len() - 1 {
                assert(s.drop_last()[i] == s[i]);
            }
        }
    }
}

/// Pure silence has a zero peak, so normalization leaves it untouched.
pub proof fn lemma_peak_of_zero(s: Seq<i64>)
    requires
        crate::sample::all_zero(s),
    ensures
        peak_val(s) == 0,
    decreases s.len(),
{
    if s.len() > 0 {
        assert(crate::sample::all_zero(s.drop_last())) by {
            assert(forall|i: int| 0 <= i < s.len() - 1 ==> s.drop_last()[i] == s[i]);
        }
        lemma_peak_of_zero(s.drop_last());
        assert(s.last() == s[s.len() - 1]);
    }
}

/// A sample rescaled for a peak beyond full amplitude: multiplied by
/// `0.95 / peak` over fixed-point values, truncated toward zero.
pub open spec fn scaled_val(s: int, peak: int) -> int {
    if s >= 0 {
        (s * 19 * (UNIT as int)) / (20 * peak)
    } else {
        -(((-s) * 19 * (UNIT as int)) / (20 * peak))
    }
}

/// Peak magnitude of the sequence.
pub fn peak(v: &Vec<i64>) -> (p: u64)
    ensures
        p as int == peak_val(v@),
{
    let mut p: u64 = 0;
    let mut i: usize = 0;
    while i < v.len()
        invariant
            i <= v@.len(),
            p as int == peak_val(v@.take(i as int)),
        decreases v@.len() - i,
    {
        let a = abs_u64(v[i]);
        proof {
            assert(v@.take(i as int + 1).drop_last() =~= v@.take(i as int));
            assert(v@.take(i as int + 1).last() == v@[i as int]);
        }
        if a > p {
            p = a;
        }
        i = i + 1;
    }
    proof {
        assert(v@.take(v@.len() as int) =~= v@);
    }
    p
}

fn scale_one(s: i64, pk: u64) -> (r: i64)
    requires
        (pk as int) > UNIT as int,
        abs_val(s as int) <= pk as int,
    ensures
        r as int == scaled_val(s as int, pk as int),
        abs_val(r as int) < UNIT as int,
{
    let mag = abs_u64(s);
    let num: u128 = (mag as u128) * 19u128 * 4294967296u128;
    let den: u128 = 20u128 * (pk as u128);
    let q = num / den;
    proof {
        lemma_mul_inequality(mag as int, pk as int, 81604378624);
        assert((num as int) < (den as int) * 4294967296) by (nonlinear_arith)
            requires
                num as int == (mag as int) * 81604378624,
                den as int == 20 * (pk as int),
                (mag as int) * 81604378624 <= (pk as int) * 81604378624,
                (pk as int) > 0,
        ;
        lemma_multiply_divide_lt(num as int, den as int, 4294967296);
        assert(q < 4294967296);
    }
    if s >= 0 {
        q as i64
    } else {
        -(q as i64)
    }
}

/// Scans the whole reconstructed sequence for its peak magnitude and, only
/// if it exceeds full amplitude, rescales every sample by `0.95 / peak`;
/// a sequence already within range is returned unchanged.  The result always
/// lies within full amplitude.
pub fn normalize(v: &Vec<i64>) -> (r: Vec<i64>)
    ensures
        r@.len() == v@.len(),
        peak_val(v@) <= UNIT as int ==> r@ == v@,
        peak_val(v@) > UNIT as int ==> forall|i: int|
            0 <= i < v@.len() ==> #[trigger] r@[i] as int == scaled_val(
                v@[i] as int,
                peak_val(v@),
            ),
        forall|i: int| 0 <= i < r@.len() ==> abs_val(#[trigger] r@[i] as int) <= UNIT as int,
{
    let pk = peak(v);
    proof {
        lemma_peak_bounds(v@);
    }
    let mut out: Vec<i64> = Vec::new();
    if pk <= 4294967296u64 {
        let mut i: usize = 0;
        while i < v.len()
            invariant
                i <= v@.len(),
                out@ == v@.take(i as int),
            decreases v@.len() - i,
        {
            out.push(v[i]);
            proof {
                assert(out@ =~= v@.take(i as int + 1));
            }
            i = i + 1;
        }
        proof {
            assert(v@.take(v@.len() as int) =~= v@);
        }
        out
    } else {
        let mut i: usize = 0;
        while i < v.len()
            invariant
                i <= v@.len(),
                out@.len() == i,
                (pk as int) == peak_val(v@),
                (pk as int) > UNIT as int,
                forall|j: int| 0 <= j < v@.len() ==> abs_val(#[trigger] v@[j] as int) <= pk as int,
                forall|j: int|
                    0 <= j < i ==> #[trigger] out@[j] as int == scaled_val(
                        v@[j] as int,
                        pk as int,
                    ),
                forall|j: int| 0 <= j < i ==> abs_val(#[trigger] out@[j] as int) <= UNIT as int,
            decreases v@.len() - i,
        {
            let w = scale_one(v[i], pk);
            out.push(w);
            i = i + 1;
        }
        out
    }
}

/// With a peak of exactly twice full amplitude, the single global rescale is
/// by exactly `0.95 / 2`: every sample is multiplied by 19/40, truncated
/// toward zero.  (A peak within full amplitude leaves the signal unchanged,
/// which `normalize` states directly.)
pub proof fn lemma_normalize_double_peak(s: int)
    ensures
        s >= 0 ==> scaled_val(s, 2 * (UNIT as int)) == s * 19 / 40,
        s < 0 ==> scaled_val(s, 2 * (UNIT as int)) == -((-s) * 19 / 40),
{
    let a = if s >= 0 {
        s * 19
    } else {
        (-s) * 19
    };
    assert(a >= 0);
    lemma_div_multiples_vanish(a, 4294967296);
    assert((a * 4294967296) / 4294967296 == a);
    lemma_div_denominator(a * 4294967296, 4294967296, 40);
    assert((a * 4294967296) / (4294967296int * 40) == a / 40);
}

} // verus!
