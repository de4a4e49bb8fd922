//! The data model: a [`Record`] is an ordered collection of named fields,
//! each with an optionally absent [`Value`] and an optional explicit key
//! rename.  The ghost mirror types [`SpecValue`] and [`SpecField`] carry the
//! same structure over mathematical sequences (text as its UTF-8 bytes), and
//! the contracts of the encoder speak of records through that mirror.

use vstd::prelude::*;

use vstd::utf8::encode_utf8;

verus! {

/// A field value: a scalar, a sequence, or a nested record.
pub enum Value {
    /// An integer, encoded as its decimal text.
    Int(i64),
    /// A boolean, encoded as `true` or `false`.
    Bool(bool),
    /// A text value, percent-encoded.
    Text(String),
    /// A sequence, flattened to one `key[i]=value` pair per element.  Only
    /// scalar elements can be encoded.
    List(Vec<Value>),
    /// A nested record, flattened under the keys `parent[child]`.
    Nested(Record),
}

/// One named slot of a record.
pub struct Field {
    /// The declared name, fed to the record's naming convention.
    pub name: String,
    /// An explicit output key that, when present, wins over the convention.
    pub rename: Option<String>,
    /// The value; an absent one leaves no trace in the output.
    pub value: Option<Value>,
}

/// An ordered collection of fields; the declaration order is the output
/// order.  The encoder never mutates a record.
pub struct Record {
    /// The fields, in declaration order.
    pub fields: Vec<Field>,
}

impl Record {
    /// A record with no fields yet.
    pub fn new() -> (r: Record)
        ensures
            r.fields@ =~= Seq::<Field>::empty(),
    {
        Record { fields: Vec::new() }
    }

    /// Declares one more field, after all declared so far.
    pub fn push_field(&mut self, f: Field)
        ensures
            final(self).fields@ == old(self).fields@.push(f),
    {
        self.fields.push(f);
    }
}

/// The ghost mirror of [`Value`]: integers as `int`, text as its UTF-8 bytes.
pub enum SpecValue {
    /// Mirror of [`Value::Int`].
    Int(int),
    /// Mirror of [`Value::Bool`].
    Bool(bool),
    /// Mirror of [`Value::Text`].
    Text(Seq<u8>),
    /// Mirror of [`Value::List`].
    List(Seq<SpecValue>),
    /// Mirror of [`Value::Nested`].
    Nested(Seq<SpecField>),
}

/// The ghost mirror of [`Field`].
pub struct SpecField {
    /// The declared name, as its UTF-8 bytes.
    pub name: Seq<u8>,
    /// The explicit output key, as its UTF-8 bytes.
    pub rename: Option<Seq<u8>>,
    /// The value.
    pub value: Option<SpecValue>,
}

/// The UTF-8 bytes of a string.
pub open spec fn str_bytes(s: String) -> Seq<u8> {
    encode_utf8(s@)
}

/// The ghost mirror of a value.
pub open spec fn view_value(v: Value) -> SpecValue
    decreases v, 0nat,
{
    match v {
        Value::Int(n) => SpecValue::Int(n as int),
        Value::Bool(b) => SpecValue::Bool(b),
        Value::Text(s) => SpecValue::Text(str_bytes(s)),
        Value::List(es) => SpecValue::List(view_values(es@)),
        Value::Nested(r) => SpecValue::Nested(view_fields(r.fields@)),
    }
}

/// The ghost mirrors of a sequence of values.
pub open spec fn view_values(vs: Seq<Value>) -> Seq<SpecValue>
    decreases vs, 1nat,
{
    if vs.len() == 0 {
        Seq::empty()
    } else {
        seq![view_value(vs[0])] + view_values(vs.drop_first())
    }
}

/// The ghost mirror of a field.
pub open spec fn view_field(f: Field) -> SpecField
    decreases f, 0nat,
{
    SpecField {
        name: str_bytes(f.name),
        rename: match f.rename {
            Option::None => Option::None,
            Option::Some(r) => Option::Some(str_bytes(r)),
        },
        value: match f.value {
            Option::None => Option::None,
            Option::Some(v) => Option::Some(view_value(v)),
        },
    }
}

/// The ghost mirrors of a sequence of fields.
pub open spec fn view_fields(fs: Seq<Field>) -> Seq<SpecField>
    decreases fs, 1nat,
{
    if fs.len() == 0 {
        Seq::empty()
    } else {
        seq![view_field(fs[0])] + view_fields(fs.drop_first())
    }
}

/// The mirror of a sequence of values is its pointwise mirror.
pub proof fn lemma_view_values_index(vs: Seq<Value>)
    ensures
        view_values(vs).len() == vs.len(),
        forall|i: int| 0 <= i < vs.len() ==> view_values(vs)[i] == view_value(vs[i]),
    decreases vs.len(),
{
    if vs.len() > 0 {
        lemma_view_values_index(vs.drop_first());
        assert forall|i: int| 0 <= i < vs.len() implies view_values(vs)[i] == view_value(
            vs[i],
        ) by {
            if i > 0 {
                assert(view_values(vs)[i] == view_values(vs.drop_first())[i - 1]);
                assert(vs.drop_first()[i - 1] == vs[i]);
            }
        }
    }
}

/// The mirror of a sequence of fields is its pointwise mirror.
pub proof fn lemma_view_fields_index(fs: Seq<Field>)
    ensures
        view_fields(fs).len() == fs.len(),
        forall|i: int| 0 <= i < fs.len() ==> view_fields(fs)[i] == view_field(fs[i]),
    decreases fs.len(),
{
    if fs.len() > 0 {
        lemma_view_fields_index(fs.drop_first());
        assert forall|i: int| 0 <= i < fs.len() implies view_fields(fs)[i] == view_field(
            fs[i],
        ) by {
            if i > 0 {
                assert(view_fields(fs)[i] == view_fields(fs.drop_first())[i - 1]);
                assert(fs.drop_first()[i - 1] == fs[i]);
            }
        }
    }
}

/// The value is a scalar: an integer, a boolean, or text.
pub open spec fn is_scalar(v: SpecValue) -> bool {
    v is Int || v is Bool || v is Text
}

/// The flat `key=value` grammar can represent the value: sequences hold
/// scalars only, and every value of a nested record can be represented in
/// turn.
pub open spec fn value_supported(v: SpecValue) -> bool
    decreases v, 0nat,
{
    match v {
        SpecValue::Int(_) => true,
        SpecValue::Bool(_) => true,
        SpecValue::Text(_) => true,
        SpecValue::List(es) => forall|i: int| 0 <= i < es.len() ==> is_scalar(#[trigger] es[i]),
        SpecValue::Nested(fs) => fields_supported(fs),
    }
}

/// Every present value among the fields can be represented.
pub open spec fn fields_supported(fs: Seq<SpecField>) -> bool
    decreases fs, 1nat,
{
    if fs.len() == 0 {
        true
    } else {
        (match fs[0].value {
            Option::None => true,
            Option::Some(v) => value_supported(v),
        }) && fields_supported(fs.drop_first())
    }
}

} // verus!
