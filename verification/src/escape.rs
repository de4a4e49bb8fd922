//! Percent-encoding of byte sequences per the query-component escaping rules:
//! unreserved bytes pass through, every other byte (space, `&`, `=`, `%`,
//! non-ASCII bytes, ...) becomes `%` followed by two upper-case hexadecimal
//! digits.  Space is always escaped as `%20`, never written as `+`.

use vstd::prelude::*;

use crate::ascii::all_ascii;
use crate::ascii::ascii_chars;
use crate::ascii::hex_digit;
use crate::ascii::hex_digit_spec;
use crate::ascii::hex_val;
use crate::ascii::is_unreserved;
use crate::ascii::is_unreserved_spec;
use crate::ascii::lemma_hex_digit_val;
use crate::ascii::PERCENT;

verus! {

/// The percent-encoding of one byte: the byte itself when unreserved,
/// `%` and two hexadecimal digits otherwise.
pub open spec fn pct_byte(b: u8) -> Seq<u8> {
    if is_unreserved_spec(b) {
        seq![b]
    } else {
        seq![PERCENT, hex_digit_spec(b / 16), hex_digit_spec(b % 16)]
    }
}

/// The percent-encoding of a byte sequence, byte by byte.
pub open spec fn pct_bytes(s: Seq<u8>) -> Seq<u8>
    decreases s.len(),
{
    if s.len() == 0 {
        Seq::empty()
    } else {
        pct_byte(s[0]) + pct_bytes(s.drop_first())
    }
}

/// Appends the percent-encoding of `s[i..]` to `out`.
pub fn pct_append(out: &mut Vec<u8>, s: &[u8], i: usize)
    requires
        i <= s@.len(),
    ensures
        final(out)@ == old(out)@ + pct_bytes(s@.skip(i as int)),
    decreases s@.len() - i,
{
    if i < s.len() {
        proof {
            assert(s@.skip(i as int).drop_first() =~= s@.skip(i as int + 1));
        }
        let b = s[i];
        if is_unreserved(b) {
            out.push(b);
        } else {
            out.push(PERCENT);
            out.push(hex_digit(b / 16));
            out.push(hex_digit(b % 16));
        }
        pct_append(out, s, i + 1);
    } else {
        proof {
            assert(s@.skip(i as int) =~= Seq::<u8>::empty());
            assert(out@ =~= out@ + Seq::<u8>::empty());
        }
    }
}

/// Percent-encoded output is ASCII.
pub proof fn lemma_pct_bytes_ascii(s: Seq<u8>)
    ensures
        all_ascii(pct_bytes(s)),
    decreases s.len(),
{
    if s.len() > 0 {
        lemma_pct_bytes_ascii(s.drop_first());
    }
}

/// A decoder for percent-encoded text: `%XX` groups become the byte the two
/// hexadecimal digits spell, any other character stands for its own byte.
pub open spec fn pct_decode(s: Seq<char>) -> Seq<u8>
    decreases s.len(),
{
    if s.len() == 0 {
        Seq::empty()
    } else if s[0] == '%' && s.len() >= 3 {
        seq![(16 * hex_val(s[1] as u8) + hex_val(s[2] as u8)) as u8] + pct_decode(s.skip(3))
    } else {
        seq![s[0] as u8] + pct_decode(s.drop_first())
    }
}

/// Percent-encoding loses nothing: decoding the encoded characters returns
/// exactly the original bytes.
pub proof fn lemma_pct_roundtrip(s: Seq<u8>)
    ensures
        pct_decode(ascii_chars(pct_bytes(s))) == s,
    decreases s.len(),
{
    if s.len() == 0 {
        assert(pct_decode(ascii_chars(pct_bytes(s))) =~= s);
    } else {
        let b = s[0];
        let rest = s.drop_first();
        lemma_pct_roundtrip(rest);
        lemma_pct_bytes_ascii(s);
        lemma_pct_bytes_ascii(rest);
        let cs = ascii_chars(pct_bytes(s));
        if is_unreserved_spec(b) {
            assert(cs[0] == b as char);
            assert(b as char != '%') by {
                assert(!is_unreserved_spec(PERCENT));
            }
            assert(cs.drop_first() =~= ascii_chars(pct_bytes(rest)));
            assert((s[0] as char) as u8 == s[0]);
            assert(pct_decode(cs) =~= s);
        } else {
            lemma_hex_digit_val(b / 16);
            lemma_hex_digit_val(b % 16);
            assert(cs.len() >= 3);
            assert(cs[0] == PERCENT as char);
            assert(cs[0] == '%');
            assert(cs[1] == hex_digit_spec(b / 16) as char);
            assert(cs[2] == hex_digit_spec(b % 16) as char);
            assert((hex_digit_spec(b / 16) as char) as u8 == hex_digit_spec(b / 16));
            assert((hex_digit_spec(b % 16) as char) as u8 == hex_digit_spec(b % 16));
            assert(16 * hex_val(hex_digit_spec(b / 16) as u8) + hex_val(
                hex_digit_spec(b % 16) as u8,
            ) == b);
            assert(cs.skip(3) =~= ascii_chars(pct_bytes(rest)));
            assert(pct_decode(cs) =~= s);
        }
    }
}

} // verus!
