//! Conversion between integer PCM and the canonical sample domain.
//!
//! Decoding divides each raw sample by its format's full-scale magnitude
//! (2^(bits-1)), expressed here exactly as a multiplication by
//! `UNIT / 2^(bits-1)`; stereo pairs are averaged into one mono sample.
//! Encoding is the inverse scaling, rounded to the nearest integer (ties away
//! from zero), with a mono sample duplicated identically into both channels
//! when the original stream was stereo.

use vstd::arithmetic::div_mod::{
    lemma_div_multiples_vanish, lemma_fundamental_div_mod, lemma_multiply_divide_lt,
};
use vstd::arithmetic::mul::lemma_mul_inequality;
use vstd::prelude::*;

use crate::sample::{abs_u64, abs_val, HALF_UNIT, UNIT};

verus! {

/// Rejection of a PCM layout that the pipeline does not support.
#[derive(Debug, Clone, Copy, PartialEq, Eq, Structural)]
pub enum FormatError {
    /// The stream's channel count; only mono and stereo are supported.
    UnsupportedChannelCount(u16),
    /// The stream's bit depth; only 16, 24 and 32-bit integer PCM are
    /// supported.
    UnsupportedBitDepth(u16),
}

/// The accepted integer PCM bit depths.
pub open spec fn bits_valid(bits: u16) -> bool {
    bits == 16 || bits == 24 || bits == 32
}

/// The accepted channel counts.
pub open spec fn channels_valid(channels: u16) -> bool {
    channels == 1 || channels == 2
}

/// Canonical units per raw integer step: `UNIT / 2^(bits-1)`.
pub open spec fn sample_scale(bits: u16) -> int {
    if bits == 16 {
        131072
    } else if bits == 24 {
        512
    } else {
        2
    }
}

/// Full-scale output magnitude for a bit depth: `2^(bits-1) - 1`.
pub open spec fn full_scale(bits: u16) -> int {
    if bits == 16 {
        32767
    } else if bits == 24 {
        8388607
    } else {
        2147483647
    }
}

/// Length of the mono canonical sequence decoded from `raw_len` raw samples:
/// stereo pairs collapse into one sample, with an odd trailing sample kept.
pub open spec fn mono_len(raw_len: nat, channels: u16) -> nat {
    if channels == 2 {
        (raw_len + 1) / 2
    } else {
        raw_len
    }
}

/// The canonical sample decoded at mono index `i`: the scaled raw sample, or
/// for stereo the arithmetic mean of the scaled pair (an odd trailing sample
/// is paired with silence).
pub open spec fn decoded_at(raw: Seq<i32>, bits: u16, channels: u16, i: int) -> int {
    if channels == 2 {
        let l = raw[2 * i] * sample_scale(bits);
        let r = if 2 * i + 1 < raw.len() {
            raw[2 * i + 1] * sample_scale(bits)
        } else {
            0
        };
        (l + r) / 2
    } else {
        raw[i] * sample_scale(bits)
    }
}

/// A canonical sample written out at a given full-scale magnitude, rounded to
/// the nearest integer with ties away from zero.
pub open spec fn enc_fixed(s: int, full: int) -> int {
    if s >= 0 {
        (s * full + HALF_UNIT) / (UNIT as int)
    } else {
        -(((-s) * full + HALF_UNIT) / (UNIT as int))
    }
}

/// A canonical sample encoded for a bit depth.
pub open spec fn encoded_sample(s: int, bits: u16) -> int {
    enc_fixed(s, full_scale(bits))
}

fn scale_of(bits: u16) -> (s: i64)
    requires
        bits_valid(bits),
    ensures
        s == sample_scale(bits),
        2 <= s <= 131072,
        s % 2 == 0,
{
    if bits == 16 {
        131072
    } else if bits == 24 {
        512
    } else {
        2
    }
}

fn full_of(bits: u16) -> (f: u64)
    requires
        bits_valid(bits),
    ensures
        f == full_scale(bits),
        32767 <= f <= 2147483647,
{
    if bits == 16 {
        32767
    } else if bits == 24 {
        8388607
    } else {
        2147483647
    }
}

/// Converts raw integer PCM into the canonical mono sequence.
pub fn decode(raw: &Vec<i32>, bits_per_sample: u16, channels: u16) -> (r: Result<
    Vec<i64>,
    FormatError,
>)
    ensures
        r is Ok <==> channels_valid(channels) && bits_valid(bits_per_sample),
        !channels_valid(channels) ==> r == Err::<Vec<i64>, FormatError>(
            FormatError::UnsupportedChannelCount(channels),
        ),
        channels_valid(channels) && !bits_valid(bits_per_sample) ==> r == Err::<
            Vec<i64>,
            FormatError,
        >(FormatError::UnsupportedBitDepth(bits_per_sample)),
        r matches Ok(v) ==> v@.len() == mono_len(raw@.len(), channels) && (forall|i: int|
            0 <= i < v@.len() ==> #[trigger] v@[i] == decoded_at(raw@, bits_per_sample, channels, i)),
{
    if channels != 1 && channels != 2 {
        return Err(FormatError::UnsupportedChannelCount(channels));
    }
    if bits_per_sample != 16 && bits_per_sample != 24 && bits_per_sample != 32 {
        return Err(FormatError::UnsupportedBitDepth(bits_per_sample));
    }
    let scale = scale_of(bits_per_sample);
    let mut out: Vec<i64> = Vec::new();
    if channels == 1 {
        let mut i: usize = 0;
        while i < raw.len()
            invariant
                i <= raw@.len(),
                out@.len() == i,
                scale == sample_scale(bits_per_sample),
                2 <= scale <= 131072,
                forall|j: int|
                    0 <= j < i ==> #[trigger] out@[j] == decoded_at(raw@, bits_per_sample, 1, j),
            decreases raw@.len() - i,
        {
            let x = raw[i];
            proof {
                assert(-281474976710656 <= (x as int) * (scale as int) <= 281474976710656)
                    by (nonlinear_arith)
                    requires
                        -2147483648 <= (x as int) && (x as int) <= 2147483647,
                        2 <= (scale as int) && (scale as int) <= 131072,
                ;
            }
            let v = (x as i64) * scale;
            out.push(v);
            i = i + 1;
        }
        Ok(out)
    } else {
        let half_scale = scale / 2;
        let m = raw.len() / 2 + raw.len() % 2;
        let mut i: usize = 0;
        while i < m
            invariant
                i <= m,
                raw@.len() <= usize::MAX,
                m == raw@.len() / 2 + raw@.len() % 2,
                out@.len() == i,
                scale == sample_scale(bits_per_sample),
                2 <= scale <= 131072,
                scale % 2 == 0,
                half_scale == scale / 2,
                forall|j: int|
                    0 <= j < i ==> #[trigger] out@[j] == decoded_at(raw@, bits_per_sample, 2, j),
            decreases m - i,
        {
            proof {
                lemma_fundamental_div_mod(raw@.len() as int, 2);
                assert(2 * (m as int) <= raw@.len() + 1);
                assert(2 * (i as int) + 1 <= raw@.len());
            }
            let l = raw[2 * i];
            let r: i32 = if 2 * i + 1 < raw.len() {
                raw[2 * i + 1]
            } else {
                0
            };
            proof {
                lemma_fundamental_div_mod(scale as int, 2);
                assert(-4294967296 <= (l as int) + (r as int) <= 4294967296);
                assert(-281474976710656 <= ((l as int) + (r as int)) * (half_scale as int)
                    <= 281474976710656) by (nonlinear_arith)
                    requires
                        -4294967296 <= (l as int) + (r as int) <= 4294967296,
                        1 <= (half_scale as int) && (half_scale as int) <= 65536,
                ;
                assert((l as int) * (scale as int) + (r as int) * (scale as int) == 2 * (((
                l as int) + (r as int)) * (half_scale as int))) by (nonlinear_arith)
                    requires
                        scale as int == 2 * (half_scale as int),
                ;
                lemma_div_multiples_vanish(((l as int) + (r as int)) * (half_scale as int), 2);
            }
            let v = ((l as i64) + (r as i64)) * half_scale;
            out.push(v);
            i = i + 1;
        }
        Ok(out)
    }
}

fn encode_one(s: i64, full: u64) -> (r: i32)
    requires
        abs_val(s as int) <= UNIT as int,
        32767 <= full <= 2147483647,
    ensures
        r as int == enc_fixed(s as int, full as int),
{
    let mag = abs_u64(s);
    proof {
        lemma_mul_inequality(mag as int, 4294967296, full as int);
    }
    let num = mag * full + 2147483648u64;
    let q = num / 4294967296u64;
    proof {
        lemma_fundamental_div_mod(num as int, 4294967296);
        assert((num as int) < 4294967296 * ((full as int) + 1));
        lemma_multiply_divide_lt(num as int, 4294967296, (full as int) + 1);
        assert(q <= full);
    }
    if s >= 0 {
        q as i32
    } else {
        -(q as i32)
    }
}

/// Converts the canonical mono sequence back to raw integer PCM at the
/// original bit depth and channel layout; a stereo stream receives each mono
/// sample duplicated identically into both channels.
///
/// Out-of-range canonical values are expected to have been constrained by the
/// normalizer already, which is why the input must lie within one unit.
pub fn encode(mono: &Vec<i64>, bits_per_sample: u16, channels: u16) -> (r: Result<
    Vec<i32>,
    FormatError,
>)
    requires
        forall|i: int| 0 <= i < mono@.len() ==> abs_val(#[trigger] mono@[i] as int) <= UNIT as int,
    ensures
        r is Ok <==> channels_valid(channels) && bits_valid(bits_per_sample),
        !channels_valid(channels) ==> r == Err::<Vec<i32>, FormatError>(
            FormatError::UnsupportedChannelCount(channels),
        ),
        channels_valid(channels) && !bits_valid(bits_per_sample) ==> r == Err::<
            Vec<i32>,
            FormatError,
        >(FormatError::UnsupportedBitDepth(bits_per_sample)),
        r matches Ok(v) ==> (channels == 1 ==> v@.len() == mono@.len() && (forall|i: int|
            0 <= i < mono@.len() ==> #[trigger] v@[i] == encoded_sample(
                mono@[i] as int,
                bits_per_sample,
            ))) && (channels == 2 ==> v@.len() == 2 * mono@.len() && (forall|i: int|
            0 <= i < mono@.len() ==> #[trigger] v@[2 * i] == encoded_sample(
                mono@[i] as int,
                bits_per_sample,
            ) && v@[2 * i + 1] == v@[2 * i])),
{
    if channels != 1 && channels != 2 {
        return Err(FormatError::UnsupportedChannelCount(channels));
    }
    if bits_per_sample != 16 && bits_per_sample != 24 && bits_per_sample != 32 {
        return Err(FormatError::UnsupportedBitDepth(bits_per_sample));
    }
    let full = full_of(bits_per_sample);
    let mut out: Vec<i32> = Vec::new();
    if channels == 1 {
        let mut i: usize = 0;
        while i < mono.len()
            invariant
                i <= mono@.len(),
                out@.len() == i,
                full == full_scale(bits_per_sample),
                32767 <= full <= 2147483647,
                forall|j: int|
                    0 <= j < mono@.len() ==> abs_val(#[trigger] mono@[j] as int) <= UNIT as int,
                forall|j: int|
                    0 <= j < i ==> #[trigger] out@[j] == encoded_sample(
                        mono@[j] as int,
                        bits_per_sample,
                    ),
            decreases mono@.len() - i,
        {
            let v = encode_one(mono[i], full);
            out.push(v);
            i = i + 1;
        }
        Ok(out)
    } else {
        let mut i: usize = 0;
        while i < mono.len()
            invariant
                i <= mono@.len(),
                out@.len() == 2 * i,
                full == full_scale(bits_per_sample),
                32767 <= full <= 2147483647,
                forall|j: int|
                    0 <= j < mono@.len() ==> abs_val(#[trigger] mono@[j] as int) <= UNIT as int,
                forall|j: int|
                    0 <= j < i ==> #[trigger] out@[2 * j] == encoded_sample(
                        mono@[j] as int,
                        bits_per_sample,
                    ) && out@[2 * j + 1] == out@[2 * j],
            decreases mono@.len() - i,
        {
            let v = encode_one(mono[i], full);
            out.push(v);
            out.push(v);
            i = i + 1;
        }
        Ok(out)
    }
}

/// Encoding then decoding at 16 bits reproduces a canonical value closely.
///
/// One 16-bit quantization step is `131072` canonical units (`UNIT / 32768`).
/// Because full scale on output is `32767` while decoding divides by `32768`,
/// the round trip is off by up to one and a half steps in general, and stays
/// within a single step for amplitudes up to half scale.
pub proof fn lemma_encode_decode_16(s: int)
    requires
        -(UNIT as int) <= s <= UNIT as int,
    ensures
        abs_val(encoded_sample(s, 16) * 131072 - s) <= 3 * 65536,
        abs_val(s) <= HALF_UNIT as int ==> abs_val(encoded_sample(s, 16) * 131072 - s) <= 131072,
{
    if s >= 0 {
        lemma_enc_dec_16_nonneg(s);
    } else {
        lemma_enc_dec_16_nonneg(-s);
        assert(encoded_sample(s, 16) == -encoded_sample(-s, 16));
    }
}

proof fn lemma_enc_dec_16_nonneg(s: int)
    requires
        0 <= s <= UNIT as int,
    ensures
        abs_val(encoded_sample(s, 16) * 131072 - s) <= 3 * 65536,
        s <= HALF_UNIT as int ==> abs_val(encoded_sample(s, 16) * 131072 - s) <= 131072,
{
    let num = s * 32767 + 2147483648;
    let q = num / 4294967296;
    lemma_fundamental_div_mod(num, 4294967296);
    let rr = num % 4294967296;
    assert(num == 4294967296 * q + rr);
    // 32768 * (q * 131072 - s) == 2^31 - rr - s, so the error is that
    // quantity divided exactly by 32768.
    assert(32768 * (q * 131072 - s) == 2147483648 - rr - s);
    assert(encoded_sample(s, 16) == q);
}

} // verus!
