use url_query_string::encode;
use url_query_string::EncodeError;
use url_query_string::Field;
use url_query_string::NamingConvention;
use url_query_string::Record;
use url_query_string::Value;

fn field(name: &str, value: Option<Value>) -> Field {
    Field { name: name.to_string(), rename: None, value }
}

fn renamed(name: &str, rename: &str, value: Option<Value>) -> Field {
    Field { name: name.to_string(), rename: Some(rename.to_string()), value }
}

fn record(fields: Vec<Field>) -> Record {
    Record { fields }
}

#[test]
fn deterministic_repeat_encoding() {
    let make = || {
        record(vec![
            field("page", Some(Value::Int(1))),
            field("user_id", Some(Value::Text("user_123".to_string()))),
        ])
    };
    let first = make().to_query_string(NamingConvention::CamelCase);
    let second = make().to_query_string(NamingConvention::CamelCase);
    assert_eq!(first, second);
    assert_eq!(first, "page=1&userId=user_123");
}

#[test]
fn order_follows_declaration() {
    let forward = record(vec![
        field("alpha", Some(Value::Int(1))),
        field("beta", Some(Value::Int(2))),
        field("gamma", Some(Value::Int(3))),
    ]);
    let reversed = record(vec![
        field("gamma", Some(Value::Int(3))),
        field("beta", Some(Value::Int(2))),
        field("alpha", Some(Value::Int(1))),
    ]);
    assert_eq!(forward.to_query_string(NamingConvention::Identity), "alpha=1&beta=2&gamma=3");
    assert_eq!(reversed.to_query_string(NamingConvention::Identity), "gamma=3&beta=2&alpha=1");
}

#[test]
fn absent_fields_are_omitted() {
    let r = record(vec![
        field("present", Some(Value::Int(7))),
        field("missing", None),
        field("tail", Some(Value::Bool(true))),
    ]);
    let out = r.to_query_string(NamingConvention::Identity);
    assert_eq!(out, "present=7&tail=true");
    assert!(!out.contains("missing"));
}

#[test]
fn all_absent_encodes_to_empty() {
    let r = record(vec![field("a", None), field("b", None)]);
    assert_eq!(r.to_query_string(NamingConvention::CamelCase), "");
    assert_eq!(r.try_to_query_string(NamingConvention::CamelCase), Ok(String::new()));

    let none = record(vec![]);
    assert_eq!(none.to_query_string(NamingConvention::Identity), "");
    assert_eq!(none.try_to_query_string(NamingConvention::Identity), Ok(String::new()));
}

#[test]
fn rename_wins_over_convention() {
    let make = || record(vec![renamed("page_size", "pageSize", Some(Value::Int(20)))]);
    assert_eq!(make().to_query_string(NamingConvention::KebabCase), "pageSize=20");
    assert_eq!(make().to_query_string(NamingConvention::SnakeCase), "pageSize=20");
    assert_eq!(make().to_query_string(NamingConvention::Identity), "pageSize=20");
}

#[test]
fn renames_match_camel_case_output() {
    let by_convention = record(vec![
        field("page", Some(Value::Int(1))),
        field("page_size", Some(Value::Int(20))),
        field("id", Some(Value::Text("test_id".to_string()))),
        field("user_id", Some(Value::Text("user_123".to_string()))),
    ]);
    let by_rename = record(vec![
        field("page", Some(Value::Int(1))),
        renamed("page_size", "pageSize", Some(Value::Int(20))),
        field("id", Some(Value::Text("test_id".to_string()))),
        renamed("user_id", "userId", Some(Value::Text("user_123".to_string()))),
    ]);
    let expected = "page=1&pageSize=20&id=test_id&userId=user_123";
    assert_eq!(by_convention.to_query_string(NamingConvention::CamelCase), expected);
    assert_eq!(by_rename.to_query_string(NamingConvention::Identity), expected);
}

#[test]
fn lossy_and_strict_diverge_on_unsupported() {
    let bad = record(vec![field(
        "items",
        Some(Value::List(vec![Value::List(vec![Value::Int(1)])])),
    )]);
    assert_eq!(bad.to_query_string(NamingConvention::Identity), "");
    assert_eq!(
        bad.try_to_query_string(NamingConvention::Identity),
        Err(EncodeError::UnsupportedType)
    );
}

#[test]
fn nested_element_in_sequence_is_unsupported() {
    let inner = record(vec![field("x", Some(Value::Int(1)))]);
    let bad = record(vec![field("items", Some(Value::List(vec![Value::Nested(inner)])))]);
    assert_eq!(
        encode(&bad, NamingConvention::CamelCase),
        Err(EncodeError::UnsupportedType)
    );
}

#[test]
fn reserved_characters_are_escaped() {
    let r = record(vec![field("q", Some(Value::Text("a b&c=d%e".to_string())))]);
    assert_eq!(r.to_query_string(NamingConvention::Identity), "q=a%20b%26c%3Dd%25e");
}

#[test]
fn non_ascii_text_uses_utf8_escapes() {
    let r = record(vec![field("name", Some(Value::Text("caf\u{e9}".to_string())))]);
    assert_eq!(r.to_query_string(NamingConvention::Identity), "name=caf%C3%A9");
}

#[test]
fn keys_are_percent_encoded() {
    let r = record(vec![renamed("value", "a b", Some(Value::Int(1)))]);
    assert_eq!(r.to_query_string(NamingConvention::Identity), "a%20b=1");
}

#[test]
fn conventions_transform_names() {
    let make = || record(vec![field("page_size", Some(Value::Int(5)))]);
    assert_eq!(make().to_query_string(NamingConvention::Identity), "page_size=5");
    assert_eq!(make().to_query_string(NamingConvention::CamelCase), "pageSize=5");
    assert_eq!(make().to_query_string(NamingConvention::PascalCase), "PageSize=5");
    assert_eq!(make().to_query_string(NamingConvention::SnakeCase), "page_size=5");
    assert_eq!(make().to_query_string(NamingConvention::KebabCase), "page-size=5");
}

#[test]
fn default_convention_is_identity() {
    let r = record(vec![field("page_size", Some(Value::Int(5)))]);
    assert_eq!(r.to_query_string(NamingConvention::default()), "page_size=5");
}

#[test]
fn integers_and_booleans_have_canonical_text() {
    let r = record(vec![
        field("neg", Some(Value::Int(-42))),
        field("min", Some(Value::Int(i64::MIN))),
        field("max", Some(Value::Int(i64::MAX))),
        field("yes", Some(Value::Bool(true))),
        field("no", Some(Value::Bool(false))),
    ]);
    assert_eq!(
        r.to_query_string(NamingConvention::Identity),
        "neg=-42&min=-9223372036854775808&max=9223372036854775807&yes=true&no=false"
    );
}

#[test]
fn sequences_flatten_with_indices() {
    let r = record(vec![field(
        "tags",
        Some(Value::List(vec![
            Value::Text("red".to_string()),
            Value::Text("blue green".to_string()),
            Value::Int(3),
        ])),
    )]);
    assert_eq!(
        r.to_query_string(NamingConvention::Identity),
        "tags[0]=red&tags[1]=blue%20green&tags[2]=3"
    );
}

#[test]
fn nested_records_flatten_with_bracketed_keys() {
    let inner = record(vec![
        field("child_key", Some(Value::Text("x".to_string()))),
        field("other", Some(Value::Int(2))),
    ]);
    let r = record(vec![
        field("parent_key", Some(Value::Nested(inner))),
        field("flat", Some(Value::Int(1))),
    ]);
    assert_eq!(
        r.to_query_string(NamingConvention::CamelCase),
        "parentKey[childKey]=x&parentKey[other]=2&flat=1"
    );
}

#[test]
fn built_record_encodes_like_a_literal_one() {
    let mut built = Record::new();
    built.push_field(field("page", Some(Value::Int(1))));
    built.push_field(field("user_id", Some(Value::Text("user_123".to_string()))));
    let literal = record(vec![
        field("page", Some(Value::Int(1))),
        field("user_id", Some(Value::Text("user_123".to_string()))),
    ]);
    assert_eq!(
        built.to_query_string(NamingConvention::CamelCase),
        literal.to_query_string(NamingConvention::CamelCase)
    );
}

#[test]
fn present_but_empty_text_keeps_its_key() {
    let r = record(vec![field("empty", Some(Value::Text(String::new())))]);
    assert_eq!(r.to_query_string(NamingConvention::Identity), "empty=");
}
