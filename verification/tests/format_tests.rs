use autotune_pipeline::format::{decode, encode, FormatError};
use autotune_pipeline::normalize::normalize;
use autotune_pipeline::sample::UNIT;

const STEP_16: i64 = 131072; // UNIT / 32768: one 16-bit quantization step

#[test]
fn decode_mono_16_bit_scales_exactly() {
    let raw = vec![16384, -32768, 1, 0];
    let mono = decode(&raw, 16, 1).unwrap();
    assert_eq!(mono, vec![16384 * STEP_16, -32768 * STEP_16, STEP_16, 0]);
}

#[test]
fn decode_mono_24_and_32_bit_scales_exactly() {
    let mono24 = decode(&vec![8388608, -4194304], 24, 1).unwrap();
    assert_eq!(mono24, vec![UNIT, -(UNIT / 2)]);
    let mono32 = decode(&vec![1073741824, -2147483648], 32, 1).unwrap();
    assert_eq!(mono32, vec![UNIT / 2, -UNIT]);
}

#[test]
fn decode_stereo_averages_pairs() {
    let raw = vec![100, 300, -50, 50];
    let mono = decode(&raw, 16, 2).unwrap();
    assert_eq!(mono, vec![200 * STEP_16, 0]);
}

#[test]
fn decode_stereo_odd_trailing_sample_pairs_with_silence() {
    let raw = vec![100, 300, 500];
    let mono = decode(&raw, 16, 2).unwrap();
    assert_eq!(mono, vec![200 * STEP_16, 250 * STEP_16]);
}

#[test]
fn decode_rejects_bad_layouts() {
    assert_eq!(
        decode(&vec![0], 8, 1),
        Err(FormatError::UnsupportedBitDepth(8))
    );
    assert_eq!(
        decode(&vec![0], 16, 3),
        Err(FormatError::UnsupportedChannelCount(3))
    );
    // the channel count is checked first
    assert_eq!(
        decode(&vec![0], 8, 0),
        Err(FormatError::UnsupportedChannelCount(0))
    );
}

#[test]
fn encode_writes_full_scale() {
    let mono = vec![UNIT, -UNIT, 0, UNIT / 2];
    assert_eq!(encode(&mono, 16, 1).unwrap(), vec![32767, -32767, 0, 16384]);
    assert_eq!(
        encode(&mono, 24, 1).unwrap(),
        vec![8388607, -8388607, 0, 4194304]
    );
    assert_eq!(
        encode(&mono, 32, 1).unwrap(),
        vec![2147483647, -2147483647, 0, 1073741824]
    );
}

#[test]
fn encode_duplicates_stereo_channels() {
    let mono = vec![UNIT / 4, -UNIT / 8];
    let out = encode(&mono, 16, 2).unwrap();
    assert_eq!(out.len(), 4);
    assert_eq!(out[0], out[1]);
    assert_eq!(out[2], out[3]);
    assert_eq!(out[0], 8192);
}

#[test]
fn encode_rejects_bad_layouts() {
    assert_eq!(
        encode(&vec![0], 12, 1),
        Err(FormatError::UnsupportedBitDepth(12))
    );
    assert_eq!(
        encode(&vec![0], 16, 5),
        Err(FormatError::UnsupportedChannelCount(5))
    );
}

/// Encoding then decoding at 16 bits stays within one quantization step for
/// amplitudes up to half scale, and within one and a half steps at the top
/// of the range.
#[test]
fn encode_decode_16_bit_round_trip_bounds() {
    let half = UNIT / 2;
    for &s in &[0, 1, -1, STEP_16, -STEP_16, 12345678, -98765432, half, -half] {
        let q = encode(&vec![s], 16, 1).unwrap()[0] as i64;
        let back = q * STEP_16;
        assert!(
            (back - s).abs() <= STEP_16,
            "half-scale round trip off by {} for {}",
            back - s,
            s
        );
    }
    for &s in &[UNIT, -UNIT, UNIT - 1, 4294868992] {
        let q = encode(&vec![s], 16, 1).unwrap()[0] as i64;
        let back = q * STEP_16;
        assert!((back - s).abs() <= 3 * 65536);
    }
    // near full scale the asymmetry of 32767 against 32768 can push the
    // error past a single step
    let s = 4294868992i64;
    let q = encode(&vec![s], 16, 1).unwrap()[0] as i64;
    assert_eq!(q, 32766);
    assert_eq!((q * STEP_16 - s).abs(), 163840);
}

#[test]
fn normalize_scales_only_above_full_amplitude() {
    // peak amplitude 2.0: every sample is multiplied by 0.95 / 2
    let acc = vec![2 * UNIT, UNIT, -UNIT, 0];
    let out = normalize(&acc);
    let expect = |s: i64| {
        let num = (s.unsigned_abs() as u128) * 19 * (UNIT as u128);
        let den = 20u128 * (2 * UNIT as u128);
        let q = (num / den) as i64;
        if s >= 0 { q } else { -q }
    };
    assert_eq!(
        out,
        vec![expect(2 * UNIT), expect(UNIT), expect(-UNIT), 0]
    );
    // the peak itself lands exactly at 0.95
    assert_eq!(out[0], 19 * (2 * UNIT) / 40);
    assert!(out.iter().all(|&s| s.abs() <= UNIT));

    // peak amplitude 0.5: left unscaled
    let quiet = vec![UNIT / 2, -UNIT / 4, 17];
    assert_eq!(normalize(&quiet), quiet);

    // peak exactly 1.0: also left unscaled
    let full = vec![UNIT, -UNIT];
    assert_eq!(normalize(&full), full);
}
