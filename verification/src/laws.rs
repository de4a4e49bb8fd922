//! The laws the encoder obeys, stated over the spec functions its contracts
//! use and proved once for every record.

use vstd::prelude::*;

use vstd::utf8::decode_utf8;
use vstd::utf8::encode_utf8;
use vstd::utf8::encode_utf8_decode_utf8;

use crate::ascii::ascii_chars;
use crate::encode::key_of;
use crate::encode::pairs_fields;
use crate::encode::qs_chars;
use crate::escape::lemma_pct_roundtrip;
use crate::escape::pct_bytes;
use crate::escape::pct_decode;
use crate::naming::NamingConvention;
use crate::record::fields_supported;
use crate::record::SpecField;

verus! {

/// Determinism: the output is a mathematical function of the record's content
/// and the convention alone, so encoding the same record twice under the same
/// convention yields byte-identical strings.
pub proof fn lemma_encoding_deterministic(
    fs1: Seq<SpecField>,
    fs2: Seq<SpecField>,
    c1: NamingConvention,
    c2: NamingConvention,
)
    requires
        fs1 == fs2,
        c1 == c2,
    ensures
        qs_chars(fs1, c1) == qs_chars(fs2, c2),
{
}

/// Order preservation: the pairs of two field runs, one after the other, are
/// the pairs of the first run followed by the pairs of the second, so output
/// key order is field declaration order.
pub proof fn lemma_pairs_fields_concat(
    prefix: Option<Seq<u8>>,
    fs1: Seq<SpecField>,
    fs2: Seq<SpecField>,
    c: NamingConvention,
)
    ensures
        pairs_fields(prefix, fs1 + fs2, c) == pairs_fields(prefix, fs1, c) + pairs_fields(
            prefix,
            fs2,
            c,
        ),
    decreases fs1.len(),
{
    if fs1.len() == 0 {
        assert(fs1 + fs2 =~= fs2);
        assert(pairs_fields(prefix, fs1, c) + pairs_fields(prefix, fs2, c) =~= pairs_fields(
            prefix,
            fs2,
            c,
        ));
    } else {
        lemma_pairs_fields_concat(prefix, fs1.drop_first(), fs2, c);
        assert((fs1 + fs2).drop_first() =~= fs1.drop_first() + fs2);
        assert((fs1 + fs2)[0] == fs1[0]);
        assert(pairs_fields(prefix, fs1 + fs2, c) =~= pairs_fields(prefix, fs1, c) + pairs_fields(
            prefix,
            fs2,
            c,
        ));
    }
}

/// Omission: a field with an absent value leaves no trace — dropping it from
/// the record leaves the pairs, and so the whole output, unchanged.
pub proof fn lemma_absent_field_omitted(
    prefix: Option<Seq<u8>>,
    fs: Seq<SpecField>,
    i: int,
    c: NamingConvention,
)
    requires
        0 <= i < fs.len(),
        fs[i].value is None,
    ensures
        pairs_fields(prefix, fs.remove(i), c) == pairs_fields(prefix, fs, c),
{
    let a = fs.take(i);
    let b = fs.skip(i);
    assert(fs =~= a + b);
    lemma_pairs_fields_concat(prefix, a, b, c);
    assert(b[0] == fs[i]);
    assert(pairs_fields(prefix, b, c) == Seq::<Seq<u8>>::empty() + pairs_fields(
        prefix,
        b.drop_first(),
        c,
    ));
    assert(Seq::<Seq<u8>>::empty() + pairs_fields(prefix, b.drop_first(), c) =~= pairs_fields(
        prefix,
        b.drop_first(),
        c,
    ));
    assert(fs.remove(i) =~= a + b.drop_first());
    lemma_pairs_fields_concat(prefix, a, b.drop_first(), c);
}

/// Rename precedence: a declared rename is the output key, whatever the
/// active convention; two conventions give a renamed field the same key.
pub proof fn lemma_rename_wins(f: SpecField, c1: NamingConvention, c2: NamingConvention)
    requires
        f.rename is Some,
    ensures
        key_of(f, c1) == f.rename->0,
        key_of(f, c1) == key_of(f, c2),
{
}

/// Empty record: when every field's value is absent the record is supported
/// and encodes to the empty string, so both entry points return `""` (the
/// strict one as `Ok`).
pub proof fn lemma_all_absent_empty(fs: Seq<SpecField>, c: NamingConvention)
    requires
        forall|i: int| 0 <= i < fs.len() ==> (#[trigger] fs[i].value) is None,
    ensures
        fields_supported(fs),
        qs_chars(fs, c) == Seq::<char>::empty(),
{
    lemma_all_absent_no_pairs(Option::None, fs, c);
    assert(ascii_chars(Seq::<u8>::empty()) =~= Seq::<char>::empty());
}

/// All-absent fields contribute no pairs at any nesting level.
proof fn lemma_all_absent_no_pairs(prefix: Option<Seq<u8>>, fs: Seq<SpecField>, c: NamingConvention)
    requires
        forall|i: int| 0 <= i < fs.len() ==> (#[trigger] fs[i].value) is None,
    ensures
        fields_supported(fs),
        pairs_fields(prefix, fs, c) == Seq::<Seq<u8>>::empty(),
    decreases fs.len(),
{
    if fs.len() > 0 {
        assert forall|i: int| 0 <= i < fs.drop_first().len() implies (#[trigger] fs.drop_first()[i].value)
            is None by {
            assert(fs.drop_first()[i] == fs[i + 1]);
        }
        lemma_all_absent_no_pairs(prefix, fs.drop_first(), c);
        assert(pairs_fields(prefix, fs, c) =~= Seq::<Seq<u8>>::empty());
    }
}

/// Escaping: percent-encoding a text value is lossless.  The encoded
/// characters decode back to the value's UTF-8 bytes, and those bytes decode
/// back to the original characters.
pub proof fn lemma_escaping_lossless(t: Seq<char>)
    ensures
        pct_decode(ascii_chars(pct_bytes(encode_utf8(t)))) == encode_utf8(t),
        decode_utf8(encode_utf8(t)) == t,
{
    lemma_pct_roundtrip(encode_utf8(t));
    encode_utf8_decode_utf8(t);
}

} // verus!
