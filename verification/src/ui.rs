//! Text helpers for presenting keys, notes and file information.

use vstd::prelude::*;
use vstd::string::StringExecFns;

verus! {

/// Names of the 24 selectable musical keys, in engine order.
pub const KEY_NAMES: [&'static str; 24] = [
    "C Major",
    "G Major",
    "D Major",
    "A Major",
    "E Major",
    "B Major",
    "F# Major",
    "C# Major",
    "F Major",
    "Bb Major",
    "Eb Major",
    "Ab Major",
    "A Minor",
    "E Minor",
    "B Minor",
    "F# Minor",
    "C# Minor",
    "G# Minor",
    "D# Minor",
    "A# Minor",
    "D Minor",
    "G Minor",
    "C Minor",
    "F Minor",
];

/// Names of the 12 chromatic notes.
pub const NOTE_NAMES: [&'static str; 12] = [
    "C",
    "C#",
    "D",
    "D#",
    "E",
    "F",
    "F#",
    "G",
    "G#",
    "A",
    "A#",
    "B",
];

/// The name of a musical key index; `"Unknown"` out of range.
pub open spec fn key_name_spec(i: int) -> Seq<char> {
    if i == 0 {
        "C Major"@
    } else if i == 1 {
        "G Major"@
    } else if i == 2 {
        "D Major"@
    } else if i == 3 {
        "A Major"@
    } else if i == 4 {
        "E Major"@
    } else if i == 5 {
        "B Major"@
    } else if i == 6 {
        "F# Major"@
    } else if i == 7 {
        "C# Major"@
    } else if i == 8 {
        "F Major"@
    } else if i == 9 {
        "Bb Major"@
    } else if i == 10 {
        "Eb Major"@
    } else if i == 11 {
        "Ab Major"@
    } else if i == 12 {
        "A Minor"@
    } else if i == 13 {
        "E Minor"@
    } else if i == 14 {
        "B Minor"@
    } else if i == 15 {
        "F# Minor"@
    } else if i == 16 {
        "C# Minor"@
    } else if i == 17 {
        "G# Minor"@
    } else if i == 18 {
        "D# Minor"@
    } else if i == 19 {
        "A# Minor"@
    } else if i == 20 {
        "D Minor"@
    } else if i == 21 {
        "G Minor"@
    } else if i == 22 {
        "C Minor"@
    } else if i == 23 {
        "F Minor"@
    } else {
        "Unknown"@
    }
}

/// The display name for a selectable key index; `"Unknown"` out of range.
pub fn get_key_name(key_index: usize) -> (r: &'static str)
    ensures
        r@ == key_name_spec(key_index as int),
{
    match key_index {
        0 => "C Major",
        1 => "G Major",
        2 => "D Major",
        3 => "A Major",
        4 => "E Major",
        5 => "B Major",
        6 => "F# Major",
        7 => "C# Major",
        8 => "F Major",
        9 => "Bb Major",
        10 => "Eb Major",
        11 => "Ab Major",
        12 => "A Minor",
        13 => "E Minor",
        14 => "B Minor",
        15 => "F# Minor",
        16 => "C# Minor",
        17 => "G# Minor",
        18 => "D# Minor",
        19 => "A# Minor",
        20 => "D Minor",
        21 => "G Minor",
        22 => "C Minor",
        23 => "F Minor",
        _ => "Unknown",
    }
}

/// The name of a chromatic note index; `"Unknown"` out of range.
pub open spec fn note_name_spec(i: int) -> Seq<char> {
    if i == 0 {
        "C"@
    } else if i == 1 {
        "C#"@
    } else if i == 2 {
        "D"@
    } else if i == 3 {
        "D#"@
    } else if i == 4 {
        "E"@
    } else if i == 5 {
        "F"@
    } else if i == 6 {
        "F#"@
    } else if i == 7 {
        "G"@
    } else if i == 8 {
        "G#"@
    } else if i == 9 {
        "A"@
    } else if i == 10 {
        "A#"@
    } else if i == 11 {
        "B"@
    } else {
        "Unknown"@
    }
}

/// The display name for a chromatic note index; `"Unknown"` out of range.
pub fn get_note_name(note_index: i32) -> (r: &'static str)
    ensures
        r@ == note_name_spec(note_index as int),
{
    if note_index >= 0 && note_index < 12 {
        match note_index {
            0 => "C",
            1 => "C#",
            2 => "D",
            3 => "D#",
            4 => "E",
            5 => "F",
            6 => "F#",
            7 => "G",
            8 => "G#",
            9 => "A",
            10 => "A#",
            _ => "B",
        }
    } else {
        "Unknown"
    }
}

/// The decimal digit character for a value below ten.
pub open spec fn digit_char(d: nat) -> char {
    if d == 0 {
        '0'
    } else if d == 1 {
        '1'
    } else if d == 2 {
        '2'
    } else if d == 3 {
        '3'
    } else if d == 4 {
        '4'
    } else if d == 5 {
        '5'
    } else if d == 6 {
        '6'
    } else if d == 7 {
        '7'
    } else if d == 8 {
        '8'
    } else {
        '9'
    }
}

/// The decimal digit string of a natural number, most significant first.
pub open spec fn dec_digits(n: nat) -> Seq<char>
    decreases n,
{
    if n < 10 {
        seq![digit_char(n)]
    } else {
        dec_digits(n / 10).push(digit_char(n % 10))
    }
}

fn digit_str(d: u64) -> (r: &'static str)
    requires
        d < 10,
    ensures
        r@ == seq![digit_char(d as nat)],
{
    proof {
        reveal_strlit("0");
        reveal_strlit("1");
        reveal_strlit("2");
        reveal_strlit("3");
        reveal_strlit("4");
        reveal_strlit("5");
        reveal_strlit("6");
        reveal_strlit("7");
        reveal_strlit("8");
        reveal_strlit("9");
    }
    match d {
        0 => "0",
        1 => "1",
        2 => "2",
        3 => "3",
        4 => "4",
        5 => "5",
        6 => "6",
        7 => "7",
        8 => "8",
        _ => "9",
    }
}

/// Renders a number in decimal.
pub fn u64_to_decimal(n: u64) -> (s: String)
    ensures
        s@ == dec_digits(n as nat),
    decreases n,
{
    if n < 10 {
        let d = digit_str(n);
        String::from_str(d)
    } else {
        let mut s = u64_to_decimal(n / 10);
        let d = digit_str(n % 10);
        s.append(d);
        proof {
            assert(dec_digits((n / 10) as nat).push(digit_char((n % 10) as nat)) =~= dec_digits(
                (n / 10) as nat,
            ) + seq![digit_char((n % 10) as nat)]);
        }
        s
    }
}

/// Rounding of `num / den` to the nearest integer, ties to even.
pub open spec fn round_half_even(num: nat, den: nat) -> nat {
    let q = num / den;
    let r2 = 2 * (num % den);
    if r2 < den {
        q
    } else if r2 > den {
        q + 1
    } else if q % 2 == 0 {
        q
    } else {
        q + 1
    }
}

/// A byte count scaled by a unit, shown with one decimal place.
pub open spec fn scaled_text(bytes: nat, den: nat) -> Seq<char> {
    let t = round_half_even(10 * bytes, den);
    dec_digits(t / 10) + "."@ + dec_digits(t % 10)
}

/// The display form of a byte count: bytes below 1 KB verbatim, otherwise
/// scaled to the largest unit under 1024 of the next (capped at GB), with
/// one decimal place.
pub open spec fn file_size_text(bytes: nat) -> Seq<char> {
    if bytes < 1024 {
        dec_digits(bytes) + " B"@
    } else if bytes < 1048576 {
        scaled_text(bytes, 1024) + " KB"@
    } else if bytes < 1073741824 {
        scaled_text(bytes, 1048576) + " MB"@
    } else {
        scaled_text(bytes, 1073741824) + " GB"@
    }
}

fn scaled_string(bytes: u64, den: u64) -> (s: String)
    requires
        1024 <= den,
    ensures
        s@ == scaled_text(bytes as nat, den as nat),
{
    let num: u128 = 10u128 * (bytes as u128);
    let d: u128 = den as u128;
    let q = num / d;
    let rem = num % d;
    proof {
        vstd::arithmetic::div_mod::lemma_fundamental_div_mod(num as int, d as int);
        assert((num as int) < (d as int) * 2305843009213693952);
        vstd::arithmetic::div_mod::lemma_multiply_divide_lt(
            num as int,
            d as int,
            2305843009213693952,
        );
        assert(q < 2305843009213693952);
    }
    let r2 = 2 * rem;
    let t: u64 = if r2 < d {
        q as u64
    } else if r2 > d {
        (q + 1) as u64
    } else if q % 2 == 0 {
        q as u64
    } else {
        (q + 1) as u64
    };
    let mut s = u64_to_decimal(t / 10);
    s.append(".");
    let frac = digit_str(t % 10);
    s.append(frac);
    proof {
        assert((t % 10) < 10);
        assert(dec_digits((t % 10) as nat) =~= seq![digit_char((t % 10) as nat)]);
    }
    s
}

/// Formats a file size in bytes with binary units and one decimal place.
pub fn format_file_size(bytes: u64) -> (s: String)
    ensures
        s@ == file_size_text(bytes as nat),
{
    if bytes < 1024 {
        let mut s = u64_to_decimal(bytes);
        s.append(" B");
        s
    } else if bytes < 1048576 {
        let mut s = scaled_string(bytes, 1024);
        s.append(" KB");
        s
    } else if bytes < 1073741824 {
        let mut s = scaled_string(bytes, 1048576);
        s.append(" MB");
        s
    } else {
        let mut s = scaled_string(bytes, 1073741824);
        s.append(" GB");
        s
    }
}

} // verus!
