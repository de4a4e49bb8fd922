//! The encoder: one record, under one naming convention, becomes one
//! ampersand-joined sequence of percent-encoded `key=value` pairs, in field
//! declaration order, with absent fields omitted and nested structure
//! flattened into bracketed keys.

use vstd::prelude::*;

use crate::ascii::all_ascii;
use crate::ascii::ascii_chars;
use crate::ascii::push_bytes;
use crate::ascii::AMP;
use crate::ascii::EQ;
use crate::ascii::LBRACKET;
use crate::ascii::RBRACKET;
use crate::decimal::bool_append;
use crate::decimal::bool_bytes;
use crate::decimal::dec_append_i64;
use crate::decimal::dec_append_u64;
use crate::decimal::dec_int;
use crate::decimal::dec_nat;
use crate::decimal::lemma_bool_bytes_ascii;
use crate::decimal::lemma_dec_int_ascii;
use crate::decimal::lemma_dec_nat_ascii;
use crate::escape::lemma_pct_bytes_ascii;
use crate::escape::pct_append;
use crate::escape::pct_bytes;
use crate::naming::convention_append;
use crate::naming::convention_key;
use crate::naming::NamingConvention;
use crate::record::fields_supported;
use crate::record::is_scalar;
use crate::record::lemma_view_fields_index;
use crate::record::lemma_view_values_index;
use crate::record::str_bytes;
use crate::record::value_supported;
use crate::record::view_field;
use crate::record::view_fields;
use crate::record::view_value;
use crate::record::view_values;
use crate::record::Field;
use crate::record::Record;
use crate::record::SpecField;
use crate::record::SpecValue;
use crate::record::Value;

use vstd::string::StringSliceAdditionalSpecFns;

verus! {

/// The one way encoding can fail.
#[derive(Clone, Copy, Debug, PartialEq, Eq, Structural)]
pub enum EncodeError {
    /// A value cannot be represented in the flat `key=value` grammar: a
    /// sequence held a non-scalar element.
    UnsupportedType,
}

/// The raw output key of a field: the explicit rename when declared, else the
/// key the convention gives to the declared name.
pub open spec fn key_of(f: SpecField, c: NamingConvention) -> Seq<u8> {
    match f.rename {
        Option::Some(r) => r,
        Option::None => convention_key(c, f.name),
    }
}

/// A key segment under an optional parent key: `seg` at top level,
/// `parent[seg]` below one.
pub open spec fn extend_key(prefix: Option<Seq<u8>>, seg: Seq<u8>) -> Seq<u8> {
    match prefix {
        Option::None => seg,
        Option::Some(p) => p + seq![LBRACKET] + seg + seq![RBRACKET],
    }
}

/// The encoded text of a scalar value.
pub open spec fn scalar_bytes(v: SpecValue) -> Seq<u8>
    recommends
        is_scalar(v),
{
    match v {
        SpecValue::Int(n) => dec_int(n),
        SpecValue::Bool(b) => bool_bytes(b),
        SpecValue::Text(s) => pct_bytes(s),
        SpecValue::List(_) => Seq::empty(),
        SpecValue::Nested(_) => Seq::empty(),
    }
}

/// The `key[j]=value` pairs of the elements `es[i..]` of a sequence value.
pub open spec fn pairs_list(key: Seq<u8>, es: Seq<SpecValue>, i: int) -> Seq<Seq<u8>>
    decreases es.len() - i,
{
    if i < 0 || i >= es.len() {
        Seq::empty()
    } else {
        seq![key + seq![LBRACKET] + dec_nat(i as nat) + seq![RBRACKET, EQ] + scalar_bytes(es[i])]
            + pairs_list(key, es, i + 1)
    }
}

/// The `key=value` pairs one value contributes under its encoded key.
pub open spec fn pairs_value(key: Seq<u8>, v: SpecValue, c: NamingConvention) -> Seq<Seq<u8>>
    decreases v, 0nat,
{
    match v {
        SpecValue::List(es) => pairs_list(key, es, 0),
        SpecValue::Nested(fs) => pairs_fields(Option::Some(key), fs, c),
        _ => seq![key + seq![EQ] + scalar_bytes(v)],
    }
}

/// The pairs of a field sequence, in declaration order: an absent value
/// contributes nothing, a present one its pairs under the field's key.
pub open spec fn pairs_fields(
    prefix: Option<Seq<u8>>,
    fs: Seq<SpecField>,
    c: NamingConvention,
) -> Seq<Seq<u8>>
    decreases fs, 1nat,
{
    if fs.len() == 0 {
        Seq::empty()
    } else {
        (match fs[0].value {
            Option::None => Seq::empty(),
            Option::Some(v) => pairs_value(
                extend_key(prefix, pct_bytes(key_of(fs[0], c))),
                v,
                c,
            ),
        }) + pairs_fields(prefix, fs.drop_first(), c)
    }
}

/// Pairs joined with `&`: the whole output, with no leading `?`.
pub open spec fn join_pairs(ps: Seq<Seq<u8>>) -> Seq<u8>
    decreases ps.len(),
{
    if ps.len() == 0 {
        Seq::empty()
    } else if ps.len() == 1 {
        ps[0]
    } else {
        ps[0] + seq![AMP] + join_pairs(ps.drop_first())
    }
}

/// The encoded output of a field sequence, as bytes.
pub open spec fn qs_bytes(fs: Seq<SpecField>, c: NamingConvention) -> Seq<u8> {
    join_pairs(pairs_fields(Option::None, fs, c))
}

/// The encoded output of a field sequence, as the characters of the returned
/// string.
pub open spec fn qs_chars(fs: Seq<SpecField>, c: NamingConvention) -> Seq<char> {
    ascii_chars(qs_bytes(fs, c))
}

/// The byte sequences a vector of byte vectors holds.
pub open spec fn pairs_view(ps: Seq<Vec<u8>>) -> Seq<Seq<u8>> {
    Seq::new(ps.len(), |i: int| ps[i]@)
}

/// The bytes an optional parent key holds.
pub open spec fn opt_bytes(p: Option<&Vec<u8>>) -> Option<Seq<u8>> {
    match p {
        Option::None => Option::None,
        Option::Some(v) => Option::Some(v@),
    }
}

/// Appends the encoded text of a scalar value to `pair`.
fn scalar_append(pair: &mut Vec<u8>, v: &Value)
    requires
        is_scalar(view_value(*v)),
    ensures
        final(pair)@ == old(pair)@ + scalar_bytes(view_value(*v)),
{
    match v {
        Value::Int(n) => dec_append_i64(pair, *n),
        Value::Bool(b) => bool_append(pair, *b),
        Value::Text(s) => {
            let bs = s.as_str().as_bytes();
            proof {
                assert(bs@ == str_bytes(*s));
                assert(bs@.skip(0) =~= bs@);
            }
            pct_append(pair, bs, 0);
        },
        Value::List(_) => proof {
            assert(false);
        },
        Value::Nested(_) => proof {
            assert(false);
        },
    }
}

/// Encodes the elements `es[i..]` of a sequence value, one `key[j]=value`
/// pair each, appending the pairs in element order; fails on a non-scalar
/// element.
fn encode_list(
    pairs: &mut Vec<Vec<u8>>,
    key: &Vec<u8>,
    es: &Vec<Value>,
    i: usize,
    c: NamingConvention,
) -> (r: Result<(), EncodeError>)
    requires
        i <= es@.len(),
    ensures
        r is Ok <==> (forall|j: int|
            i <= j < es@.len() ==> is_scalar(#[trigger] view_values(es@)[j])),
        r is Ok ==> pairs_view(final(pairs)@) == pairs_view(old(pairs)@) + pairs_list(
            key@,
            view_values(es@),
            i as int,
        ),
        r is Err ==> r->Err_0 == EncodeError::UnsupportedType,
    decreases es@.len() - i,
{
    proof {
        lemma_view_values_index(es@);
    }
    if i == es.len() {
        proof {
            assert(pairs_list(key@, view_values(es@), i as int) =~= Seq::<Seq<u8>>::empty());
            assert(pairs_view(pairs@) =~= pairs_view(pairs@) + Seq::<Seq<u8>>::empty());
        }
        Ok(())
    } else {
        let e = &es[i];
        match e {
            Value::List(_) => Err(EncodeError::UnsupportedType),
            Value::Nested(_) => Err(EncodeError::UnsupportedType),
            _ => {
                let ghost pairs0 = pairs@;
                let mut pair: Vec<u8> = Vec::new();
                push_bytes(&mut pair, key.as_slice(), 0);
                pair.push(LBRACKET);
                dec_append_u64(&mut pair, i as u64);
                pair.push(RBRACKET);
                pair.push(EQ);
                scalar_append(&mut pair, e);
                proof {
                    assert(key@.skip(0) =~= key@);
                    assert(pair@ =~= key@ + seq![LBRACKET] + dec_nat(i as nat) + seq![
                        RBRACKET,
                        EQ,
                    ] + scalar_bytes(view_value(es@[i as int])));
                }
                pairs.push(pair);
                proof {
                    assert(pairs_view(pairs@) =~= pairs_view(pairs0).push(pair@));
                }
                let r = encode_list(pairs, key, es, i + 1, c);
                proof {
                    if r is Ok {
                        assert(pairs_view(pairs@) =~= pairs_view(pairs0) + pairs_list(
                            key@,
                            view_values(es@),
                            i as int,
                        ));
                    }
                }
                r
            },
        }
    }
}

/// Encodes one present value under its encoded key, appending its pairs.
fn encode_value(pairs: &mut Vec<Vec<u8>>, key: &Vec<u8>, v: &Value, c: NamingConvention) -> (r:
    Result<(), EncodeError>)
    ensures
        r is Ok <==> value_supported(view_value(*v)),
        r is Ok ==> pairs_view(final(pairs)@) == pairs_view(old(pairs)@) + pairs_value(
            key@,
            view_value(*v),
            c,
        ),
        r is Err ==> r->Err_0 == EncodeError::UnsupportedType,
    decreases v, 0nat,
{
    match v {
        Value::List(es) => {
            proof {
                lemma_view_values_index(es@);
            }
            let r = encode_list(pairs, key, es, 0, c);
            proof {
                let vv = view_values(es@);
                assert(view_value(*v) == SpecValue::List(vv));
                assert(pairs_value(key@, view_value(*v), c) == pairs_list(key@, vv, 0));
                assert((forall|j: int| 0 <= j < es@.len() ==> is_scalar(#[trigger] vv[j]))
                    <==> value_supported(SpecValue::List(vv)));
            }
            r
        },
        Value::Nested(rec) => {
            let r = encode_fields(pairs, Option::Some(key), &rec.fields, 0, c);
            proof {
                let fv = view_fields(rec.fields@);
                assert(fv.skip(0) =~= fv);
                assert(view_value(*v) == SpecValue::Nested(fv));
            }
            r
        },
        _ => {
            let ghost pairs0 = pairs@;
            let mut pair: Vec<u8> = Vec::new();
            push_bytes(&mut pair, key.as_slice(), 0);
            pair.push(EQ);
            scalar_append(&mut pair, v);
            proof {
                assert(key@.skip(0) =~= key@);
                assert(pair@ =~= key@ + seq![EQ] + scalar_bytes(view_value(*v)));
            }
            pairs.push(pair);
            proof {
                assert(pairs_view(pairs@) =~= pairs_view(pairs0) + pairs_value(
                    key@,
                    view_value(*v),
                    c,
                ));
            }
            Ok(())
        },
    }
}

/// Encodes the fields `fs[i..]` under an optional parent key, appending their
/// pairs in declaration order; absent values are skipped entirely.
fn encode_fields(
    pairs: &mut Vec<Vec<u8>>,
    prefix: Option<&Vec<u8>>,
    fs: &Vec<Field>,
    i: usize,
    c: NamingConvention,
) -> (r: Result<(), EncodeError>)
    requires
        i <= fs@.len(),
    ensures
        r is Ok <==> fields_supported(view_fields(fs@).skip(i as int)),
        r is Ok ==> pairs_view(final(pairs)@) == pairs_view(old(pairs)@) + pairs_fields(
            opt_bytes(prefix),
            view_fields(fs@).skip(i as int),
            c,
        ),
        r is Err ==> r->Err_0 == EncodeError::UnsupportedType,
    decreases fs@, fs@.len() - i + 1,
{
    proof {
        lemma_view_fields_index(fs@);
    }
    if i == fs.len() {
        proof {
            assert(view_fields(fs@).skip(i as int) =~= Seq::<SpecField>::empty());
            assert(pairs_view(pairs@) =~= pairs_view(pairs@) + Seq::<Seq<u8>>::empty());
        }
        Ok(())
    } else {
        let ghost tail = view_fields(fs@).skip(i as int);
        proof {
            assert(tail[0] == view_field(fs@[i as int]));
            assert(tail.drop_first() =~= view_fields(fs@).skip(i as int + 1));
        }
        let f = &fs[i];
        match &f.value {
            Option::None => {
                let r = encode_fields(pairs, prefix, fs, i + 1, c);
                proof {
                    if r is Ok {
                        assert(pairs_fields(opt_bytes(prefix), tail, c) == Seq::<Seq<
                            u8,
                        >>::empty() + pairs_fields(opt_bytes(prefix), tail.drop_first(), c));
                        assert(Seq::<Seq<u8>>::empty() + pairs_fields(
                            opt_bytes(prefix),
                            tail.drop_first(),
                            c,
                        ) =~= pairs_fields(opt_bytes(prefix), tail.drop_first(), c));
                    }
                }
                r
            },
            Option::Some(v) => {
                let ghost pairs0 = pairs@;
                let mut raw: Vec<u8> = Vec::new();
                match &f.rename {
                    Option::Some(rn) => {
                        let bs = rn.as_str().as_bytes();
                        proof {
                            assert(bs@.skip(0) =~= bs@);
                            assert(bs@ == str_bytes(*rn));
                        }
                        push_bytes(&mut raw, bs, 0);
                    },
                    Option::None => {
                        convention_append(&mut raw, c, f.name.as_str().as_bytes());
                    },
                }
                proof {
                    assert(raw@ == key_of(tail[0], c));
                }
                let mut key: Vec<u8> = Vec::new();
                match prefix {
                    Option::None => {
                        pct_append(&mut key, raw.as_slice(), 0);
                    },
                    Option::Some(p) => {
                        push_bytes(&mut key, p.as_slice(), 0);
                        key.push(LBRACKET);
                        pct_append(&mut key, raw.as_slice(), 0);
                        key.push(RBRACKET);
                    },
                }
                proof {
                    assert(raw@.skip(0) =~= raw@);
                    if prefix is Some {
                        let p = prefix->0;
                        assert(p@.skip(0) =~= p@);
                        assert(key@ =~= p@ + seq![LBRACKET] + pct_bytes(raw@) + seq![RBRACKET]);
                    }
                    assert(key@ == extend_key(opt_bytes(prefix), pct_bytes(key_of(tail[0], c))));
                }
                match encode_value(pairs, &key, v, c) {
                    Result::Err(e) => Err(e),
                    Result::Ok(_) => {
                        let r = encode_fields(pairs, prefix, fs, i + 1, c);
                        proof {
                            if r is Ok {
                                assert(pairs_view(pairs@) =~= pairs_view(pairs0) + pairs_fields(
                                    opt_bytes(prefix),
                                    tail,
                                    c,
                                ));
                            }
                        }
                        r
                    },
                }
            },
        }
    }
}

/// Every pair of the list is ASCII.
pub open spec fn all_pairs_ascii(ps: Seq<Seq<u8>>) -> bool {
    forall|j: int| 0 <= j < ps.len() ==> all_ascii(#[trigger] ps[j])
}

/// Joining ASCII sequences yields an ASCII sequence.
proof fn lemma_all_ascii_concat(a: Seq<u8>, b: Seq<u8>)
    requires
        all_ascii(a),
        all_ascii(b),
    ensures
        all_ascii(a + b),
{
    assert forall|i: int| 0 <= i < (a + b).len() implies (a + b)[i] < 128 by {
        if i < a.len() {
            assert((a + b)[i] == a[i]);
        } else {
            assert((a + b)[i] == b[i - a.len()]);
        }
    }
}

/// The encoded text of any value is ASCII.
proof fn lemma_scalar_bytes_ascii(v: SpecValue)
    ensures
        all_ascii(scalar_bytes(v)),
{
    match v {
        SpecValue::Int(n) => lemma_dec_int_ascii(n),
        SpecValue::Bool(b) => lemma_bool_bytes_ascii(b),
        SpecValue::Text(s) => lemma_pct_bytes_ascii(s),
        _ => {},
    }
}

/// Every pair of a sequence value is ASCII when its key is.
proof fn lemma_pairs_list_ascii(key: Seq<u8>, es: Seq<SpecValue>, i: int)
    requires
        all_ascii(key),
    ensures
        all_pairs_ascii(pairs_list(key, es, i)),
    decreases es.len() - i,
{
    if 0 <= i < es.len() {
        lemma_pairs_list_ascii(key, es, i + 1);
        lemma_dec_nat_ascii(i as nat);
        lemma_scalar_bytes_ascii(es[i]);
        lemma_all_ascii_concat(key, seq![LBRACKET]);
        lemma_all_ascii_concat(key + seq![LBRACKET], dec_nat(i as nat));
        lemma_all_ascii_concat(key + seq![LBRACKET] + dec_nat(i as nat), seq![RBRACKET, EQ]);
        lemma_all_ascii_concat(
            key + seq![LBRACKET] + dec_nat(i as nat) + seq![RBRACKET, EQ],
            scalar_bytes(es[i]),
        );
        let whole = pairs_list(key, es, i);
        let head = key + seq![LBRACKET] + dec_nat(i as nat) + seq![RBRACKET, EQ] + scalar_bytes(
            es[i],
        );
        assert forall|j: int| 0 <= j < whole.len() implies all_ascii(#[trigger] whole[j]) by {
            if j == 0 {
                assert(whole[j] == head);
            } else {
                assert(whole[j] == pairs_list(key, es, i + 1)[j - 1]);
            }
        }
    }
}

/// Every pair a value contributes is ASCII when its key is.
proof fn lemma_pairs_value_ascii(key: Seq<u8>, v: SpecValue, c: NamingConvention)
    requires
        all_ascii(key),
    ensures
        all_pairs_ascii(pairs_value(key, v, c)),
    decreases v, 0nat,
{
    match v {
        SpecValue::List(es) => lemma_pairs_list_ascii(key, es, 0),
        SpecValue::Nested(fs) => lemma_pairs_fields_ascii(Option::Some(key), fs, c),
        _ => {
            lemma_scalar_bytes_ascii(v);
            lemma_all_ascii_concat(key, seq![EQ]);
            lemma_all_ascii_concat(key + seq![EQ], scalar_bytes(v));
            let whole = pairs_value(key, v, c);
            assert forall|j: int| 0 <= j < whole.len() implies all_ascii(#[trigger] whole[j]) by {
                assert(whole[j] == key + seq![EQ] + scalar_bytes(v));
            }
        },
    }
}

/// Every pair a field sequence contributes is ASCII when the parent key is.
proof fn lemma_pairs_fields_ascii(prefix: Option<Seq<u8>>, fs: Seq<SpecField>, c: NamingConvention)
    requires
        prefix matches Option::Some(p) ==> all_ascii(p),
    ensures
        all_pairs_ascii(pairs_fields(prefix, fs, c)),
    decreases fs, 1nat,
{
    if fs.len() > 0 {
        lemma_pairs_fields_ascii(prefix, fs.drop_first(), c);
        let whole = pairs_fields(prefix, fs, c);
        let rest = pairs_fields(prefix, fs.drop_first(), c);
        match fs[0].value {
            Option::None => {
                assert forall|j: int| 0 <= j < whole.len() implies all_ascii(
                    #[trigger] whole[j],
                ) by {
                    assert(whole[j] == rest[j]);
                }
            },
            Option::Some(v) => {
                let seg = pct_bytes(key_of(fs[0], c));
                lemma_pct_bytes_ascii(key_of(fs[0], c));
                match prefix {
                    Option::None => {},
                    Option::Some(p) => {
                        lemma_all_ascii_concat(p, seq![LBRACKET]);
                        lemma_all_ascii_concat(p + seq![LBRACKET], seg);
                        lemma_all_ascii_concat(p + seq![LBRACKET] + seg, seq![RBRACKET]);
                    },
                }
                lemma_pairs_value_ascii(extend_key(prefix, seg), v, c);
                let head = pairs_value(extend_key(prefix, seg), v, c);
                assert forall|j: int| 0 <= j < whole.len() implies all_ascii(
                    #[trigger] whole[j],
                ) by {
                    if j < head.len() {
                        assert(whole[j] == head[j]);
                    } else {
                        assert(whole[j] == rest[j - head.len()]);
                    }
                }
            },
        }
    }
}

/// The joined output is ASCII when every pair is.
proof fn lemma_join_pairs_ascii(ps: Seq<Seq<u8>>)
    requires
        all_pairs_ascii(ps),
    ensures
        all_ascii(join_pairs(ps)),
    decreases ps.len(),
{
    if ps.len() > 1 {
        assert forall|j: int| 0 <= j < ps.drop_first().len() implies all_ascii(
            #[trigger] ps.drop_first()[j],
        ) by {
            assert(ps.drop_first()[j] == ps[j + 1]);
        }
        lemma_join_pairs_ascii(ps.drop_first());
        lemma_all_ascii_concat(ps[0], seq![AMP]);
        lemma_all_ascii_concat(ps[0] + seq![AMP], join_pairs(ps.drop_first()));
    }
}

/// The whole encoded output is ASCII.
pub proof fn lemma_qs_bytes_ascii(fs: Seq<SpecField>, c: NamingConvention)
    ensures
        all_ascii(qs_bytes(fs, c)),
{
    lemma_pairs_fields_ascii(Option::None, fs, c);
    lemma_join_pairs_ascii(pairs_fields(Option::None, fs, c));
}

/// Appends the pairs `ps[i..]`, `&`-separated, to `out`.
fn join_append(out: &mut Vec<u8>, ps: &Vec<Vec<u8>>, i: usize)
    requires
        i <= ps@.len(),
    ensures
        final(out)@ == old(out)@ + join_pairs(pairs_view(ps@).skip(i as int)),
    decreases ps@.len() - i,
{
    if i < ps.len() {
        let p = &ps[i];
        proof {
            assert(p@.skip(0) =~= p@);
        }
        push_bytes(out, p.as_slice(), 0);
        if i + 1 < ps.len() {
            out.push(AMP);
        }
        join_append(out, ps, i + 1);
        proof {
            let pv = pairs_view(ps@);
            assert(pv.skip(i as int).drop_first() =~= pv.skip(i as int + 1));
            assert(pv.skip(i as int)[0] == p@);
            if i + 1 == ps@.len() {
                assert(pv.skip(i as int + 1) =~= Seq::<Seq<u8>>::empty());
                assert(out@ =~= old(out)@ + join_pairs(pv.skip(i as int)));
            } else {
                assert(join_pairs(pv.skip(i as int)) == p@ + seq![AMP] + join_pairs(
                    pv.skip(i as int + 1),
                ));
                assert(out@ =~= old(out)@ + join_pairs(pv.skip(i as int)));
            }
        }
    } else {
        proof {
            assert(pairs_view(ps@).skip(i as int) =~= Seq::<Seq<u8>>::empty());
            assert(out@ =~= out@ + Seq::<u8>::empty());
        }
    }
}

/// Relies on String::from_utf8: a vector of ASCII bytes is valid UTF-8, and
/// the string it yields holds exactly those bytes as its characters.
#[verifier::external_body]
fn ascii_string(bytes: Vec<u8>) -> (r: String)
    requires
        all_ascii(bytes@),
    ensures
        r@ == ascii_chars(bytes@),
{
    String::from_utf8(bytes).unwrap_or_default()
}

/// Encodes one record under one convention: in declaration order, every
/// present field becomes its percent-encoded `key=value` pairs (sequences and
/// nested records flattened under bracketed keys) and the pairs are joined
/// with `&`.  Fails with [`EncodeError::UnsupportedType`] exactly when some
/// present value cannot be represented; the record is never mutated.
pub fn encode(record: &Record, convention: NamingConvention) -> (r: Result<String, EncodeError>)
    ensures
        r is Ok <==> fields_supported(view_fields(record.fields@)),
        r matches Ok(s) ==> s@ == qs_chars(view_fields(record.fields@), convention),
        r is Err ==> r->Err_0 == EncodeError::UnsupportedType,
{
    let ghost fv = view_fields(record.fields@);
    proof {
        assert(fv.skip(0) =~= fv);
    }
    let mut pairs: Vec<Vec<u8>> = Vec::new();
    match encode_fields(&mut pairs, Option::None, &record.fields, 0, convention) {
        Result::Err(e) => Err(e),
        Result::Ok(_) => {
            proof {
                assert(pairs_view(pairs@) =~= pairs_fields(Option::None, fv, convention));
            }
            let mut out: Vec<u8> = Vec::new();
            join_append(&mut out, &pairs, 0);
            proof {
                assert(pairs_view(pairs@).skip(0) =~= pairs_view(pairs@));
                assert(out@ =~= qs_bytes(fv, convention));
                lemma_qs_bytes_ascii(fv, convention);
            }
            Ok(ascii_string(out))
        },
    }
}

impl Record {
    /// The strict entry point: the encoded string, or the error unchanged.
    /// This is the recommended form where silent loss is unacceptable.
    pub fn try_to_query_string(&self, convention: NamingConvention) -> (r: Result<
        String,
        EncodeError,
    >)
        ensures
            r is Ok <==> fields_supported(view_fields(self.fields@)),
            r matches Ok(s) ==> s@ == qs_chars(view_fields(self.fields@), convention),
            r is Err ==> r->Err_0 == EncodeError::UnsupportedType,
    {
        encode(self, convention)
    }

    /// The lossy entry point: the encoded string, or the empty string when
    /// encoding fails.  A genuinely empty record and a failed encoding are
    /// indistinguishable here; callers that must tell them apart use
    /// [`Record::try_to_query_string`].
    pub fn to_query_string(&self, convention: NamingConvention) -> (r: String)
        ensures
            fields_supported(view_fields(self.fields@)) ==> r@ == qs_chars(
                view_fields(self.fields@),
                convention,
            ),
            !fields_supported(view_fields(self.fields@)) ==> r@ == Seq::<char>::empty(),
    {
        match encode(self, convention) {
            Result::Ok(s) => s,
            Result::Err(_) => String::new(),
        }
    }
}

} // verus!
