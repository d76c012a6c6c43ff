//! Encoding and decoding of Presentation Graphics Stream (PGS) subtitles,
//! the bitmap subtitle format carried by `.sup` files.
//!
//! The crate offers two layers. The segment layer frames, parses and emits
//! the five PGS segment kinds bit for bit against a byte stream. The display
//! set layer aggregates a run of segments into one validated display set,
//! decoding run-length-compressed object bitmaps on the way in and
//! re-compressing them on the way out.

pub mod bytes;
pub mod displayset;
pub mod displaysetread;
pub mod displaysetwrite;
pub mod laws;
pub mod layout;
pub mod segment;
pub mod segmentread;
pub mod segmentwrite;

use vstd::prelude::*;

verus! {

/// The decimal digit character of a value below ten.
pub open spec fn spec_digit(d: int) -> char {
    if d == 0 {
        '0'
    } else if d == 1 {
        '1'
    } else if d == 2 {
        '2'
    } else if d == 3 {
        '3'
    } else if d == 4 {
        '4'
    } else if d == 5 {
        '5'
    } else if d == 6 {
        '6'
    } else if d == 7 {
        '7'
    } else if d == 8 {
        '8'
    } else {
        '9'
    }
}

/// The decimal digits of a value, most significant first.
pub open spec fn spec_dec_digits(n: int) -> Seq<char>
    decreases n,
{
    if n < 10 {
        seq![spec_digit(n)]
    } else {
        spec_dec_digits(n / 10).push(spec_digit(n % 10))
    }
}

/// The decimal digits of a value, zero-padded to at least two.
pub open spec fn spec_pad2(n: int) -> Seq<char> {
    if n < 10 {
        seq!['0'] + spec_dec_digits(n)
    } else {
        spec_dec_digits(n)
    }
}

/// The decimal digits of a value, zero-padded to at least three.
pub open spec fn spec_pad3(n: int) -> Seq<char> {
    if n < 10 {
        seq!['0', '0'] + spec_dec_digits(n)
    } else if n < 100 {
        seq!['0'] + spec_dec_digits(n)
    } else {
        spec_dec_digits(n)
    }
}

/// The clock rendering of a 90 kHz timestamp: hours, minutes, seconds and
/// milliseconds, each zero-padded, with hours widening past two digits
/// when the timestamp is large enough.
pub open spec fn spec_timestamp(ts: u32) -> Seq<char> {
    let total = ts / 90;
    let h = total / 3_600_000;
    let m = (total % 3_600_000) / 60_000;
    let s = (total % 60_000) / 1_000;
    let ms = total % 1_000;
    spec_pad2(h as int) + seq![':'] + spec_pad2(m as int) + seq![':'] + spec_pad2(s as int)
        + seq!['.'] + spec_pad3(ms as int)
}

/// Appends one decimal digit character.
fn push_digit(out: &mut String, d: u32)
    requires
        d < 10,
    ensures
        final(out)@ == old(out)@ + seq![spec_digit(d as int)],
{
    let piece: &str = if d == 0 {
        "0"
    } else if d == 1 {
        "1"
    } else if d == 2 {
        "2"
    } else if d == 3 {
        "3"
    } else if d == 4 {
        "4"
    } else if d == 5 {
        "5"
    } else if d == 6 {
        "6"
    } else if d == 7 {
        "7"
    } else if d == 8 {
        "8"
    } else {
        "9"
    };
    proof {
        reveal_strlit("0");
        reveal_strlit("1");
        reveal_strlit("2");
        reveal_strlit("3");
        reveal_strlit("4");
        reveal_strlit("5");
        reveal_strlit("6");
        reveal_strlit("7");
        reveal_strlit("8");
        reveal_strlit("9");
        assert(piece@ =~= seq![spec_digit(d as int)]);
    }
    out.append(piece);
}

/// Appends the decimal digits of a value, most significant first.
fn push_dec(out: &mut String, n: u32)
    ensures
        final(out)@ == old(out)@ + spec_dec_digits(n as int),
    decreases n,
{
    if n < 10 {
        push_digit(out, n);
    } else {
        push_dec(out, n / 10);
        push_digit(out, n % 10);
        proof {
            assert(final(out)@ =~= old(out)@ + spec_dec_digits(n as int));
        }
    }
}

/// Renders a 90 kHz timestamp as `HH:MM:SS.mmm`, exactly as
/// [`spec_timestamp`] describes.
pub fn ts_to_timestamp(ts: u32) -> (r: String)
    ensures
        r@ == spec_timestamp(ts),
{
    let total = ts / 90;
    let h = total / 3_600_000;
    let m = (total % 3_600_000) / 60_000;
    let s = (total % 60_000) / 1_000;
    let ms = total % 1_000;
    let mut out = String::new();
    if h < 10 {
        push_digit(&mut out, 0);
    }
    push_dec(&mut out, h);
    proof {
        reveal_strlit(":");
        reveal_strlit(".");
        assert(":"@ =~= seq![':']);
        assert("."@ =~= seq!['.']);
    }
    out.append(":");
    if m < 10 {
        push_digit(&mut out, 0);
    }
    push_dec(&mut out, m);
    out.append(":");
    if s < 10 {
        push_digit(&mut out, 0);
    }
    push_dec(&mut out, s);
    out.append(".");
    if ms < 10 {
        push_digit(&mut out, 0);
        push_digit(&mut out, 0);
    } else if ms < 100 {
        push_digit(&mut out, 0);
    }
    push_dec(&mut out, ms);
    proof {
        assert(out@ =~= spec_timestamp(ts));
    }
    out
}

} // verus!
