//! Decimal text: formatting unsigned integers and parsing them back.
//!
//! Point ids, error messages and snapshot names all need the decimal form
//! of machine integers; restoring a snapshot needs the reverse direction.

use vstd::prelude::*;

verus! {

use vstd::string::StringSliceAdditionalSpecFns;

/// The decimal digit character for `d`.
pub open spec fn spec_digit(d: int) -> char {
    if d == 0 {
        '0'
    } else if d == 1 {
        '1'
    } else if d == 2 {
        '2'
    } else if d == 3 {
        '3'
    } else if d == 4 {
        '4'
    } else if d == 5 {
        '5'
    } else if d == 6 {
        '6'
    } else if d == 7 {
        '7'
    } else if d == 8 {
        '8'
    } else {
        '9'
    }
}

/// The decimal representation of `n`, without sign or leading zeroes.
pub open spec fn spec_u64_dec(n: int) -> Seq<char>
    decreases n,
{
    if n < 10 {
        seq![spec_digit(n)]
    } else {
        spec_u64_dec(n / 10) + seq![spec_digit(n % 10)]
    }
}

/// The digit character for a value below ten.
pub fn digit_char(d: u64) -> (c: char)
    requires
        d < 10,
    ensures
        c == spec_digit(d as int),
{
    if d == 0 {
        '0'
    } else if d == 1 {
        '1'
    } else if d == 2 {
        '2'
    } else if d == 3 {
        '3'
    } else if d == 4 {
        '4'
    } else if d == 5 {
        '5'
    } else if d == 6 {
        '6'
    } else if d == 7 {
        '7'
    } else if d == 8 {
        '8'
    } else {
        '9'
    }
}

/// Relies on `String`'s `FromIterator` over `char`: collecting a sequence
/// of characters builds the string of exactly those characters.
#[verifier::external_body]
pub fn chars_to_string(v: &Vec<char>) -> (r: String)
    ensures
        r@ == v@,
{
    v.iter().collect()
}

/// The decimal text of `n`.
pub fn u64_to_string(n: u64) -> (r: String)
    ensures
        r@ == spec_u64_dec(n as int),
{
    let mut chars: Vec<char> = Vec::new();
    if n == 0 {
        chars.push('0');
    } else {
        let mut m: u64 = n;
        while m > 0
            invariant
                m <= n,
                m > 0 ==> spec_u64_dec(n as int) == spec_u64_dec(m as int) + chars@,
                m == 0 ==> spec_u64_dec(n as int) == chars@,
            decreases m,
        {
            let d = digit_char(m % 10);
            chars.insert(0, d);
            proof {
                if m >= 10 {
                    assert(spec_u64_dec(m as int) == spec_u64_dec(m as int / 10) + seq![
                        spec_digit(m as int % 10),
                    ]);
                } else {
                    assert(m as int % 10 == m as int);
                    assert(spec_u64_dec(m as int) == seq![spec_digit(m as int)]);
                }
            }
            m = m / 10;
        }
    }
    chars_to_string(&chars)
}

/// Whether byte `b` is an ASCII decimal digit.
pub open spec fn spec_is_digit_byte(b: u8) -> bool {
    48 <= b <= 57
}

/// The digit portion of text offered to `u64` parsing: everything after an
/// optional leading `+`.
pub open spec fn spec_u64_digits_part(bytes: Seq<u8>) -> Seq<u8> {
    if bytes.len() > 0 && bytes[0] == 43 {
        bytes.skip(1)
    } else {
        bytes
    }
}

/// Whether `bytes` is text that `u64` parsing accepts: an optional leading
/// `+`, then one or more digits.
pub open spec fn spec_u64_parseable_shape(bytes: Seq<u8>) -> bool {
    &&& spec_u64_digits_part(bytes).len() > 0
    &&& forall|i: int|
        0 <= i < spec_u64_digits_part(bytes).len() ==> spec_is_digit_byte(
            #[trigger] spec_u64_digits_part(bytes)[i],
        )
}

/// The value of a sequence of ASCII digit bytes.
pub open spec fn spec_digits_value(digits: Seq<u8>) -> int
    decreases digits.len(),
{
    if digits.len() == 0 {
        0
    } else {
        spec_digits_value(digits.drop_last()) * 10 + (digits.last() - 48)
    }
}

/// The numeric value of text accepted by `u64` parsing.
pub open spec fn spec_u64_parse_value(bytes: Seq<u8>) -> int {
    spec_digits_value(spec_u64_digits_part(bytes))
}

/// Parse decimal text as `u64`, as `str::parse::<u64>` does: an optional
/// leading `+`, digits only, and the value must fit in 64 bits.
pub fn parse_u64(s: &str) -> (r: Option<u64>)
    ensures
        match r {
            Some(v) => spec_u64_parseable_shape(s.spec_bytes())
                && v == spec_u64_parse_value(s.spec_bytes()),
            None => !(spec_u64_parseable_shape(s.spec_bytes())
                && spec_u64_parse_value(s.spec_bytes()) <= u64::MAX),
        },
{
    let bytes = s.as_bytes();
    let len = bytes.len();
    let start: usize = if len > 0 && bytes[0] == 43 {
        1
    } else {
        0
    };
    let ghost part = spec_u64_digits_part(s.spec_bytes());
    proof {
        assert(part =~= s.spec_bytes().skip(start as int));
    }
    if len == start {
        return None;
    }
    let mut value: u64 = 0;
    let mut i: usize = start;
    while i < len
        invariant
            start <= i <= len,
            len == s.spec_bytes().len(),
            bytes@ == s.spec_bytes(),
            part == spec_u64_digits_part(s.spec_bytes()),
            part == s.spec_bytes().skip(start as int),
            forall|k: int| 0 <= k < i - start ==> spec_is_digit_byte(#[trigger] part[k]),
            value == spec_digits_value(part.take(i - start)),
        decreases len - i,
    {
        let b = bytes[i];
        proof {
            assert(part[i - start] == s.spec_bytes()[i as int]);
        }
        if b < 48 || b > 57 {
            // The byte at this position makes the text unparseable.
            return None;
        }
        let d: u64 = (b - 48) as u64;
        proof {
            assert(part.take(i - start + 1).drop_last() =~= part.take(i - start));
            assert(part.take(i - start + 1).last() == b);
        }
        if value > (u64::MAX - d) / 10 {
            // Overflow: the digits read so far already exceed what fits.
            proof {
                assert(value * 10 + d > u64::MAX) by {
                    assert(u64::MAX - d == 10 * ((u64::MAX - d) / 10) + (u64::MAX - d) % 10);
                }
                if spec_u64_parseable_shape(s.spec_bytes()) {
                    lemma_digits_value_monotone(part, i - start);
                }
            }
            return None;
        }
        value = value * 10 + d;
        i = i + 1;
    }
    proof {
        assert(part.take(len - start) =~= part);
    }
    Some(value)
}

/// If a prefix of the digit string is already too large for `u64`, the whole
/// string's value is too.
proof fn lemma_digits_value_monotone(digits: Seq<u8>, upto: int)
    requires
        0 <= upto < digits.len(),
        forall|i: int| 0 <= i < digits.len() ==> spec_is_digit_byte(#[trigger] digits[i]),
        spec_digits_value(digits.take(upto + 1)) > u64::MAX,
    ensures
        spec_digits_value(digits) > u64::MAX,
    decreases digits.len() - upto,
{
    if upto + 1 == digits.len() {
        assert(digits.take(upto + 1) == digits);
    } else {
        assert(spec_digits_value(digits.take(upto + 2)) == spec_digits_value(
            digits.take(upto + 2).drop_last(),
        ) * 10 + (digits.take(upto + 2).last() - 48));
        assert(digits.take(upto + 2).drop_last() == digits.take(upto + 1));
        assert(spec_digits_value(digits.take(upto + 2)) > u64::MAX);
        lemma_digits_value_monotone(digits, upto + 1);
    }
}

} // verus!
