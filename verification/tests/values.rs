use microjson::{JSONError, JSONValue, JSONValueType};

#[test]
fn integer() {
    let (value, value_len) = JSONValue::parse("42").unwrap();
    assert_eq!(value.value_type, JSONValueType::Number);
    assert_eq!(value_len, 2);
    assert_eq!(value.read_integer(), Ok(42));
    assert!(value.read_string().is_err());
}

#[test]
fn string() {
    let (value, value_len) = JSONValue::parse("\"hello world\"").unwrap();
    assert_eq!(value.value_type, JSONValueType::String);
    assert_eq!(value_len, "\"hello world\"".len());
    assert!(value.read_integer().is_err());
    assert_eq!(value.read_string(), Ok("hello world"));
}

#[test]
fn array() {
    let (value, value_len) = JSONValue::parse("[1,2,3]").unwrap();
    assert_eq!(value.value_type, JSONValueType::Array);
    assert_eq!(value_len, "[1,2,3]".len());
    let (value, value_len) = JSONValue::parse("[]").unwrap();
    assert_eq!(value.value_type, JSONValueType::Array);
    assert_eq!(value_len, "[]".len());
    let (value, value_len) = JSONValue::parse("  [\n  ]").unwrap();
    assert_eq!(value.value_type, JSONValueType::Array);
    assert_eq!(value_len, "  [\n  ]".len());
    let (value, value_len) = JSONValue::parse("[1  ,  2\t,\r3\n]").unwrap();
    assert_eq!(value.value_type, JSONValueType::Array);
    assert_eq!(value_len, "[1  ,  2\t,\r3\n]".len());

    assert!(value.read_integer().is_err());
    assert!(value.read_string().is_err());
    assert_eq!(value.get_nth_array_item(0).unwrap().read_integer(), Ok(1));
    assert_eq!(value.get_nth_array_item(1).unwrap().read_integer(), Ok(2));
    assert_eq!(value.get_nth_array_item(2).unwrap().read_integer(), Ok(3));
}

#[test]
fn object() {
    let input = "{
        \"id\": 0,
        \"name\": \"Ginger Fuller\"
      }";
    let (value, value_len) = JSONValue::parse(input).unwrap();
    assert_eq!(value.value_type, JSONValueType::Object);
    assert_eq!(value_len, input.len());

    assert!(value.read_integer().is_err());
    assert!(value.read_string().is_err());
    assert_eq!(value.get_key_value("id").unwrap().read_integer(), Ok(0));
    assert_eq!(
        value.get_key_value("name").unwrap().read_string(),
        Ok("Ginger Fuller")
    );

    assert!(JSONValue::parse("{\"foo\":[{}]}").is_ok());
    assert!(JSONValue::parse("[{\"foo\":{}}]").is_ok());
}

#[test]
fn this_broke_once() {
    assert!(JSONValue::parse(
        r##"
[{"a":{"email":"d@"},"m":"#20\n\n.\n"}]
    "##
    )
    .is_ok());
}

#[test]
fn integer_whitespace() {
    let (value, value_len) = JSONValue::parse("  42\t").unwrap();
    assert_eq!(value.value_type, JSONValueType::Number);
    assert_eq!(value_len, "  42".len());
    let (value, value_len) = JSONValue::parse("\n 42\r").unwrap();
    assert_eq!(value.value_type, JSONValueType::Number);
    assert_eq!(value_len, "\n 42".len());
}

#[test]
fn string_whitespace() {
    let (value, value_len) = JSONValue::parse("  \"foo me a bar\"\t").unwrap();
    assert_eq!(value.value_type, JSONValueType::String);
    assert_eq!(value_len, "  \"foo me a bar\"".len());
    let (value, value_len) = JSONValue::parse("\n \"a bar\n I said.\"\r").unwrap();
    assert_eq!(value.value_type, JSONValueType::String);
    assert_eq!(value_len, "\n \"a bar\n I said.\"".len());
}

#[test]
fn decimal_number_is_scanned_whole() {
    let (value, value_len) = JSONValue::parse("3.141592").unwrap();
    assert_eq!(value.value_type, JSONValueType::Number);
    assert_eq!(value_len, "3.141592".len());
    assert_eq!(value.contents, "3.141592");
    assert_eq!(value.read_integer(), Err(JSONError::NumberFormatError));
    assert_eq!(value.read_string(), Err(JSONError::TypeMismatch));
}
