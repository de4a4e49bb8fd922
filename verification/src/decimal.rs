//! Canonical decimal text of integers and of booleans.

use vstd::prelude::*;

use crate::ascii::all_ascii;
use crate::ascii::HYPHEN;

verus! {

/// The decimal digits of a natural number, most significant first, without
/// leading zeros (`0` itself is the single digit `0`).
pub open spec fn dec_nat(n: nat) -> Seq<u8>
    decreases n,
{
    if n < 10 {
        seq![(48 + n) as u8]
    } else {
        dec_nat(n / 10) + seq![(48 + n % 10) as u8]
    }
}

/// The decimal text of an integer: a `-` sign for negative values, then the
/// digits of the magnitude.
pub open spec fn dec_int(n: int) -> Seq<u8> {
    if n < 0 {
        seq![HYPHEN] + dec_nat((-n) as nat)
    } else {
        dec_nat(n as nat)
    }
}

/// The canonical text of a boolean: `true` or `false`.
pub open spec fn bool_bytes(b: bool) -> Seq<u8> {
    if b {
        seq![116u8, 114u8, 117u8, 101u8]
    } else {
        seq![102u8, 97u8, 108u8, 115u8, 101u8]
    }
}

/// Appends the decimal digits of `n` to `out`.
pub fn dec_append_u64(out: &mut Vec<u8>, n: u64)
    ensures
        final(out)@ == old(out)@ + dec_nat(n as nat),
    decreases n,
{
    if n < 10 {
        out.push(48 + (n as u8));
    } else {
        dec_append_u64(out, n / 10);
        out.push(48 + ((n % 10) as u8));
    }
}

/// Appends the decimal text of `n`, sign included, to `out`.
pub fn dec_append_i64(out: &mut Vec<u8>, n: i64)
    ensures
        final(out)@ == old(out)@ + dec_int(n as int),
{
    if n >= 0 {
        dec_append_u64(out, n as u64);
    } else {
        out.push(HYPHEN);
        let mag: u64 = ((-(n + 1)) as u64) + 1;
        proof {
            assert(mag as nat == (-(n as int)) as nat);
        }
        dec_append_u64(out, mag);
    }
}

/// Appends `true` or `false` to `out`.
pub fn bool_append(out: &mut Vec<u8>, b: bool)
    ensures
        final(out)@ == old(out)@ + bool_bytes(b),
{
    if b {
        out.push(116);
        out.push(114);
        out.push(117);
        out.push(101);
    } else {
        out.push(102);
        out.push(97);
        out.push(108);
        out.push(115);
        out.push(101);
    }
    proof {
        assert(out@ =~= old(out)@ + bool_bytes(b));
    }
}

/// Decimal digits are ASCII.
pub proof fn lemma_dec_nat_ascii(n: nat)
    ensures
        all_ascii(dec_nat(n)),
    decreases n,
{
    if n >= 10 {
        lemma_dec_nat_ascii(n / 10);
    }
}

/// Integer text is ASCII.
pub proof fn lemma_dec_int_ascii(n: int)
    ensures
        all_ascii(dec_int(n)),
{
    if n < 0 {
        lemma_dec_nat_ascii((-n) as nat);
    } else {
        lemma_dec_nat_ascii(n as nat);
    }
}

/// Boolean text is ASCII.
pub proof fn lemma_bool_bytes_ascii(b: bool)
    ensures
        all_ascii(bool_bytes(b)),
{
}

} // verus!
