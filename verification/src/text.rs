//! The textual form of a brightness value.
//!
//! The hardware interface is a text file holding one non-negative decimal
//! integer, optionally followed by trailing whitespace. This module parses
//! such contents into a brightness value and renders a value back into the
//! decimal form that is written out, so that what one invocation writes the
//! next can read.

use vstd::prelude::*;

verus! {

/// Whether `b` is an ASCII decimal digit.
pub open spec fn is_digit_byte(b: u8) -> bool {
    48 <= b <= 57
}

/// Whether `b` is an ASCII whitespace byte (tab through carriage return, or
/// space).
pub open spec fn is_whitespace_byte(b: u8) -> bool {
    b == 32 || (9 <= b <= 13)
}

/// The numeric value of the digit byte `b`.
pub open spec fn digit_value(b: u8) -> nat
    recommends
        is_digit_byte(b),
{
    (b - 48) as nat
}

/// `s` with every trailing whitespace byte removed.
pub open spec fn trim_trailing_whitespace(s: Seq<u8>) -> Seq<u8>
    decreases s.len(),
{
    if s.len() > 0 && is_whitespace_byte(s.last()) {
        trim_trailing_whitespace(s.drop_last())
    } else {
        s
    }
}

/// Whether every byte of `s` is a decimal digit.
pub open spec fn all_digits(s: Seq<u8>) -> bool {
    forall|i: int| 0 <= i < s.len() ==> is_digit_byte(s[i])
}

/// The number that the digit string `s` denotes in base ten.
pub open spec fn digits_value(s: Seq<u8>) -> nat
    recommends
        all_digits(s),
    decreases s.len(),
{
    if s.len() == 0 {
        0
    } else {
        digits_value(s.drop_last()) * 10 + digit_value(s.last())
    }
}

/// Whether `s` is valid contents of the brightness file: at least one digit,
/// then nothing but whitespace.
pub open spec fn is_brightness_text(s: Seq<u8>) -> bool {
    trim_trailing_whitespace(s).len() > 0 && all_digits(trim_trailing_whitespace(s))
}

/// Whether `b` is an ASCII whitespace byte, decided in executable code.
fn is_whitespace(b: u8) -> (r: bool)
    ensures
        r == is_whitespace_byte(b),
{
    b == 32 || (9 <= b && b <= 13)
}

/// The value that the digit string `s` denotes never falls when the string is
/// extended: every prefix denotes at most what the whole denotes.
proof fn lemma_digits_value_prefix_le(s: Seq<u8>, j: int)
    requires
        0 <= j <= s.len(),
    ensures
        digits_value(s.take(j)) <= digits_value(s),
    decreases s.len() - j,
{
    if j == s.len() {
        assert(s.take(j) =~= s);
    } else {
        assert(s.take(j + 1).drop_last() =~= s.take(j));
        assert(digits_value(s.take(j + 1)) == digits_value(s.take(j)) * 10 + digit_value(
            s.take(j + 1).last(),
        ));
        lemma_digits_value_prefix_le(s, j + 1);
    }
}

/// Parse the contents of the brightness file: the decimal number at its
/// start, ignoring trailing whitespace. Returns the parsed value exactly when
/// the contents are a non-empty digit string (after trimming) whose value
/// fits the result type; returns nothing otherwise.
pub fn parse_brightness(buf: &[u8]) -> (r: Option<u64>)
    ensures
        ({
            let t = trim_trailing_whitespace(buf@);
            &&& (r is Some <==> t.len() > 0 && all_digits(t) && digits_value(t) <= u64::MAX)
            &&& (r is Some ==> r->Some_0 == digits_value(t))
        }),
{
    let ghost t = trim_trailing_whitespace(buf@);
    let mut end: usize = buf.len();
    proof {
        assert(buf@.take(end as int) =~= buf@);
    }
    while end > 0 && is_whitespace(buf[end - 1])
        invariant
            end <= buf@.len(),
            trim_trailing_whitespace(buf@.take(end as int)) == t,
        decreases end,
    {
        proof {
            assert(buf@.take(end as int).drop_last() =~= buf@.take(end - 1));
        }
        end = end - 1;
    }
    proof {
        assert(t == buf@.take(end as int));
    }
    let mut acc: u64 = 0;
    let mut i: usize = 0;
    while i < end
        invariant
            i <= end <= buf@.len(),
            t == trim_trailing_whitespace(buf@),
            t == buf@.take(end as int),
            all_digits(t.take(i as int)),
            acc == digits_value(t.take(i as int)),
        decreases end - i,
    {
        let b = buf[i];
        if b < 48 || b > 57 {
            // A non-digit before the trailing whitespace: not a number.
            proof {
                assert(t[i as int] == b);
            }
            return None;
        }
        let d = (b - 48) as u64;
        proof {
            assert(t.take(i + 1).drop_last() =~= t.take(i as int));
            assert(t.take(i + 1).last() == b);
        }
        if acc > u64::MAX / 10 || (acc == u64::MAX / 10 && d > u64::MAX % 10) {
            // The digits seen so far already exceed the result type.
            proof {
                assert(digits_value(t.take(i + 1)) == acc * 10 + d);
                lemma_digits_value_prefix_le(t, i + 1);
            }
            return None;
        }
        acc = acc * 10 + d;
        i = i + 1;
    }
    if end == 0 {
        // Nothing but whitespace: no number at all.
        return None;
    }
    proof {
        assert(t.take(end as int) =~= t);
    }
    Some(acc)
}

/// The base-ten digit string denoting `n`, most significant digit first, with
/// no leading zero except for `n == 0` itself.
pub open spec fn spec_decimal(n: nat) -> Seq<u8>
    decreases n,
{
    if n < 10 {
        seq![(n + 48) as u8]
    } else {
        spec_decimal(n / 10).push((n % 10 + 48) as u8)
    }
}

/// The decimal form denotes the number it was made from: rendering then
/// parsing gives back the value, so what one invocation writes to the
/// brightness file the next invocation reads.
pub proof fn lemma_decimal_round_trip(n: nat)
    ensures
        spec_decimal(n).len() > 0,
        all_digits(spec_decimal(n)),
        digits_value(spec_decimal(n)) == n,
    decreases n,
{
    let d = spec_decimal(n);
    if n < 10 {
        assert(d.drop_last() =~= Seq::<u8>::empty());
        assert(digits_value(Seq::<u8>::empty()) == 0);
        assert(d[0] == (n + 48) as u8);
        assert(digits_value(d) == digit_value(d.last()));
    } else {
        lemma_decimal_round_trip(n / 10);
        let p = spec_decimal(n / 10);
        assert(d.drop_last() =~= p);
        assert(d.last() == (n % 10 + 48) as u8);
        assert forall|i: int| 0 <= i < d.len() implies is_digit_byte(d[i]) by {
            if i < d.len() - 1 {
                assert(d[i] == p[i]);
            }
        }
        assert(digit_value(d.last()) == n % 10);
        assert(digits_value(d) == digits_value(p) * 10 + digit_value(d.last()));
    }
}

/// Render `v` in its textual decimal form, the form the hardware file holds.
pub fn render_brightness(v: u64) -> (r: Vec<u8>)
    ensures
        r@ == spec_decimal(v as nat),
    decreases v,
{
    if v < 10 {
        let mut out: Vec<u8> = Vec::new();
        out.push(v as u8 + 48);
        proof {
            assert(out@ =~= spec_decimal(v as nat));
        }
        out
    } else {
        let mut out = render_brightness(v / 10);
        out.push((v % 10) as u8 + 48);
        proof {
            assert(out@ =~= spec_decimal(v as nat));
        }
        out
    }
}

} // verus!
