use url_query_string::Field;
use url_query_string::NamingConvention;
use url_query_string::Record;
use url_query_string::Value;

fn field(name: &str, value: Option<Value>) -> Field {
    Field { name: name.to_string(), rename: None, value }
}

fn page_record() -> Record {
    Record {
        fields: vec![
            field("page", Some(Value::Int(1))),
            field("page_size", Some(Value::Int(20))),
            field("id", Some(Value::Text("test_id".to_string()))),
            field("user_id", Some(Value::Text("user_123".to_string()))),
        ],
    }
}

#[test]
fn test_to_query_string() {
    let instance = page_record();

    let query_string = instance.to_query_string(NamingConvention::CamelCase);
    assert_eq!(query_string, "page=1&pageSize=20&id=test_id&userId=user_123");
}

#[test]
fn test_try_to_query_string_ok() {
    let instance = page_record();

    let result = instance.try_to_query_string(NamingConvention::CamelCase);
    assert!(result.is_ok());
    assert_eq!(result.unwrap(), "page=1&pageSize=20&id=test_id&userId=user_123");
}
