//! Byte-level helpers: the ASCII bytes the query-string grammar uses,
//! classification of unreserved bytes, hexadecimal digits, and letter-case
//! maps for naming conventions.

use vstd::prelude::*;

verus! {

/// `&`, the separator between `key=value` pairs.
pub const AMP: u8 = 38;

/// `=`, the separator between a key and its value.
pub const EQ: u8 = 61;

/// `%`, the escape character of percent-encoding.
pub const PERCENT: u8 = 37;

/// `[`, opening a nested-key or index segment.
pub const LBRACKET: u8 = 91;

/// `]`, closing a nested-key or index segment.
pub const RBRACKET: u8 = 93;

/// `_`, the word separator of declared (snake_case) field names.
pub const UNDERSCORE: u8 = 95;

/// `-`, the word separator of kebab-case keys, and the sign of a negative
/// integer.
pub const HYPHEN: u8 = 45;

/// The byte is an ASCII decimal digit `0`..=`9`.
pub open spec fn is_digit(b: u8) -> bool {
    48 <= b <= 57
}

/// The byte is an ASCII lower-case letter `a`..=`z`.
pub open spec fn is_lower(b: u8) -> bool {
    97 <= b <= 122
}

/// The byte is an ASCII upper-case letter `A`..=`Z`.
pub open spec fn is_upper(b: u8) -> bool {
    65 <= b <= 90
}

/// The byte passes through percent-encoding unchanged: the unreserved
/// characters of a URL query component (letters, digits, `-` `.` `_` `~`).
pub open spec fn is_unreserved_spec(b: u8) -> bool {
    is_digit(b) || is_lower(b) || is_upper(b) || b == 45 || b == 46 || b == 95 || b == 126
}

/// Decides [`is_unreserved_spec`].
#[verifier::when_used_as_spec(is_unreserved_spec)]
pub fn is_unreserved(b: u8) -> (r: bool)
    ensures
        r == is_unreserved_spec(b),
{
    (48 <= b && b <= 57) || (97 <= b && b <= 122) || (65 <= b && b <= 90) || b == 45 || b == 46
        || b == 95 || b == 126
}

/// The upper-case hexadecimal digit of a value below 16.
pub open spec fn hex_digit_spec(n: u8) -> u8
    recommends
        n < 16,
{
    if n < 10 {
        (48 + n) as u8
    } else {
        (55 + n) as u8
    }
}

/// Computes [`hex_digit_spec`].
pub fn hex_digit(n: u8) -> (r: u8)
    requires
        n < 16,
    ensures
        r == hex_digit_spec(n),
{
    if n < 10 {
        48 + n
    } else {
        55 + n
    }
}

/// The numeric value of an upper-case hexadecimal digit.
pub open spec fn hex_val(b: u8) -> u8
    recommends
        is_digit(b) || (65 <= b <= 70),
{
    if is_digit(b) {
        (b - 48) as u8
    } else {
        (b - 55) as u8
    }
}

/// Hexadecimal digits decode to the value they encode.
pub proof fn lemma_hex_digit_val(n: u8)
    requires
        n < 16,
    ensures
        hex_val(hex_digit_spec(n)) == n,
        is_digit(hex_digit_spec(n)) || (65 <= hex_digit_spec(n) <= 70),
{
}

/// The byte with an upper-case ASCII letter lowered; any other byte unchanged.
pub open spec fn to_lower_spec(b: u8) -> u8 {
    if is_upper(b) {
        (b + 32) as u8
    } else {
        b
    }
}

/// Computes [`to_lower_spec`].
pub fn to_lower(b: u8) -> (r: u8)
    ensures
        r == to_lower_spec(b),
{
    if 65 <= b && b <= 90 {
        b + 32
    } else {
        b
    }
}

/// The byte with a lower-case ASCII letter raised; any other byte unchanged.
pub open spec fn to_upper_spec(b: u8) -> u8 {
    if is_lower(b) {
        (b - 32) as u8
    } else {
        b
    }
}

/// Computes [`to_upper_spec`].
pub fn to_upper(b: u8) -> (r: u8)
    ensures
        r == to_upper_spec(b),
{
    if 97 <= b && b <= 122 {
        b - 32
    } else {
        b
    }
}

/// Appends `s[i..]` to `out` unchanged.
pub fn push_bytes(out: &mut Vec<u8>, s: &[u8], i: usize)
    requires
        i <= s@.len(),
    ensures
        final(out)@ == old(out)@ + s@.skip(i as int),
    decreases s@.len() - i,
{
    if i < s.len() {
        proof {
            assert(s@.skip(i as int).drop_first() =~= s@.skip(i as int + 1));
            assert(s@.skip(i as int) =~= seq![s@[i as int]] + s@.skip(i as int + 1));
        }
        out.push(s[i]);
        push_bytes(out, s, i + 1);
    } else {
        proof {
            assert(s@.skip(i as int) =~= Seq::<u8>::empty());
            assert(out@ =~= out@ + Seq::<u8>::empty());
        }
    }
}

/// Every byte of the sequence is ASCII.
pub open spec fn all_ascii(s: Seq<u8>) -> bool {
    forall|i: int| 0 <= i < s.len() ==> s[i] < 128
}

/// The characters spelled by a sequence of ASCII bytes.
pub open spec fn ascii_chars(s: Seq<u8>) -> Seq<char> {
    Seq::new(s.len(), |i: int| s[i] as char)
}

} // verus!
