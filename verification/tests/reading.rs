use microjson::{JSONError, JSONValue, JSONValueType};

fn value(text: &str) -> JSONValue<'_> {
    JSONValue::parse(text).unwrap().0
}

const ONE_OF_EACH: [&str; 6] = ["\"s\"", "12", "{\"a\":1}", "[1]", "true", "null"];

#[test]
fn read_integer_needs_a_number() {
    for text in ONE_OF_EACH {
        let v = value(text);
        if v.value_type != JSONValueType::Number {
            assert_eq!(v.read_integer(), Err(JSONError::TypeMismatch));
        }
    }
    assert_eq!(value("12").read_integer(), Ok(12));
}

#[test]
fn read_string_needs_a_string() {
    for text in ONE_OF_EACH {
        let v = value(text);
        if v.value_type != JSONValueType::String {
            assert_eq!(v.read_string(), Err(JSONError::TypeMismatch));
        }
    }
    assert_eq!(value("\"s\"").read_string(), Ok("s"));
}

#[test]
fn get_nth_array_item_needs_an_array() {
    for text in ONE_OF_EACH {
        let v = value(text);
        if v.value_type != JSONValueType::Array {
            assert_eq!(v.get_nth_array_item(0).unwrap_err(), JSONError::TypeMismatch);
        }
    }
    assert_eq!(value("[1]").get_nth_array_item(0).unwrap().contents, "1");
}

#[test]
fn get_key_value_needs_an_object() {
    for text in ONE_OF_EACH {
        let v = value(text);
        if v.value_type != JSONValueType::Object {
            assert_eq!(v.get_key_value("a").unwrap_err(), JSONError::TypeMismatch);
        }
    }
    assert_eq!(value("{\"a\":1}").get_key_value("a").unwrap().contents, "1");
}

#[test]
fn integers_are_read_digit_by_digit() {
    assert_eq!(value("0").read_integer(), Ok(0));
    assert_eq!(value("7").read_integer(), Ok(7));
    assert_eq!(value("007").read_integer(), Ok(7));
    assert_eq!(value("1234567890").read_integer(), Ok(1234567890));
    assert_eq!(value("-1").read_integer(), Ok(-1));
    assert_eq!(value("-42").read_integer(), Ok(-42));
    assert_eq!(value("-0").read_integer(), Ok(0));
    assert_eq!(value("-").read_integer(), Ok(0));
}

#[test]
fn an_integer_with_anything_but_digits_is_refused() {
    assert_eq!(value("3.141592").read_integer(), Err(JSONError::NumberFormatError));
    assert_eq!(value("1e5").read_integer(), Err(JSONError::NumberFormatError));
    assert_eq!(value("1E5").read_integer(), Err(JSONError::NumberFormatError));
    assert_eq!(value("-1.0").read_integer(), Err(JSONError::NumberFormatError));
    let by_hand = JSONValue { contents: "1-2", value_type: JSONValueType::Number };
    assert_eq!(by_hand.read_integer(), Err(JSONError::NumberFormatError));
    let by_hand = JSONValue { contents: "12a", value_type: JSONValueType::Number };
    assert_eq!(by_hand.read_integer(), Err(JSONError::NumberFormatError));
}

#[test]
fn an_integer_too_large_wraps_around() {
    let max = isize::MAX.to_string();
    let min = isize::MIN.to_string();
    assert_eq!(value(&max).read_integer(), Ok(isize::MAX));
    assert_eq!(value(&min).read_integer(), Ok(isize::MIN));
    let above = (isize::MAX as i128 + 1).to_string();
    assert_eq!(value(&above).read_integer(), Ok(isize::MIN));
    let below = (isize::MIN as i128 - 1).to_string();
    assert_eq!(value(&below).read_integer(), Ok(isize::MAX));
    let range = (usize::MAX as i128 + 1).to_string();
    assert_eq!(value(&range).read_integer(), Ok(0));
    let big: i128 = 123_456_789_012_345_678_901_234_567_890;
    assert_eq!(value(&big.to_string()).read_integer(), Ok(big as isize));
    assert_eq!(value(&(-big).to_string()).read_integer(), Ok((-big) as isize));
}

#[test]
fn a_string_is_read_as_written() {
    assert_eq!(value("\"\"").read_string(), Ok(""));
    assert_eq!(value("  \"hello world\"  ").read_string(), Ok("hello world"));
    assert_eq!(value("\"a\\\"b\"").read_string(), Ok("a\\\"b"));
    assert_eq!(value("\"a\\nb\"").read_string(), Ok("a\\nb"));
    assert_eq!(value("\"\\u00e9\"").read_string(), Ok("\\u00e9"));
    assert_eq!(value("\"\\\\\"").read_string(), Ok("\\\\"));
    assert_eq!(value("\"日本語\"").read_string(), Ok("日本語"));
}

#[test]
fn array_items_come_in_order() {
    let v = value("[1,2,3]");
    assert_eq!(v.get_nth_array_item(0).unwrap().read_integer(), Ok(1));
    assert_eq!(v.get_nth_array_item(1).unwrap().read_integer(), Ok(2));
    assert_eq!(v.get_nth_array_item(2).unwrap().read_integer(), Ok(3));
    assert_eq!(v.get_nth_array_item(3).unwrap_err(), JSONError::IndexOutOfBounds);
    assert_eq!(v.get_nth_array_item(usize::MAX).unwrap_err(), JSONError::IndexOutOfBounds);
}

#[test]
fn an_empty_array_has_no_item() {
    for text in ["[]", "[ ]", " [\n\t] "] {
        let v = value(text);
        for n in [0, 1, 2, 17, usize::MAX] {
            assert_eq!(v.get_nth_array_item(n).unwrap_err(), JSONError::IndexOutOfBounds);
        }
    }
}

#[test]
fn array_items_are_cut_without_their_surroundings() {
    let v = value("[ \"a,b\" ,\t[1, [2]] , {\"k\": [3]},null ,]");
    let kinds = [
        (JSONValueType::String, "\"a,b\""),
        (JSONValueType::Array, "[1, [2]]"),
        (JSONValueType::Object, "{\"k\": [3]}"),
        (JSONValueType::Null, "null"),
    ];
    for (n, (kind, text)) in kinds.into_iter().enumerate() {
        let item = v.get_nth_array_item(n).unwrap();
        assert_eq!(item.value_type, kind);
        assert_eq!(item.contents, text);
    }
    assert_eq!(v.get_nth_array_item(4).unwrap_err(), JSONError::IndexOutOfBounds);
    let inner = v.get_nth_array_item(1).unwrap().get_nth_array_item(1).unwrap();
    assert_eq!(inner.contents, "[2]");
    assert_eq!(inner.get_nth_array_item(0).unwrap().read_integer(), Ok(2));
}

#[test]
fn members_are_found_by_key() {
    let v = value("{\"id\":0,\"name\":\"Ginger Fuller\"}");
    assert_eq!(v.get_key_value("id").unwrap().read_integer(), Ok(0));
    assert_eq!(v.get_key_value("name").unwrap().read_string(), Ok("Ginger Fuller"));
    assert_eq!(v.get_key_value("missing").unwrap_err(), JSONError::KeyNotFound);
    assert_eq!(v.get_key_value("").unwrap_err(), JSONError::KeyNotFound);
    assert_eq!(v.get_key_value("i").unwrap_err(), JSONError::KeyNotFound);
    assert_eq!(v.get_key_value("idx").unwrap_err(), JSONError::KeyNotFound);
    assert_eq!(v.get_key_value("Ginger Fuller").unwrap_err(), JSONError::KeyNotFound);
}

#[test]
fn an_empty_object_has_no_member() {
    for text in ["{}", "{ }", " {\r\n} "] {
        assert_eq!(value(text).get_key_value("a").unwrap_err(), JSONError::KeyNotFound);
        assert_eq!(value(text).get_key_value("").unwrap_err(), JSONError::KeyNotFound);
    }
}

#[test]
fn the_first_of_two_equal_keys_is_taken() {
    let v = value("{\"a\":1,\"b\":2,\"a\":3}");
    assert_eq!(v.get_key_value("a").unwrap().read_integer(), Ok(1));
    assert_eq!(v.get_key_value("b").unwrap().read_integer(), Ok(2));
}

#[test]
fn keys_are_compared_as_written() {
    let v = value("{\"a\\\"b\": 1, \"\": 2, \"é\": 3, \"k\" : {\"k\": 4}, }");
    assert_eq!(v.get_key_value("a\\\"b").unwrap().read_integer(), Ok(1));
    assert_eq!(v.get_key_value("a\"b").unwrap_err(), JSONError::KeyNotFound);
    assert_eq!(v.get_key_value("").unwrap().read_integer(), Ok(2));
    assert_eq!(v.get_key_value("é").unwrap().read_integer(), Ok(3));
    let inner = v.get_key_value("k").unwrap();
    assert_eq!(inner.contents, "{\"k\": 4}");
    assert_eq!(inner.get_key_value("k").unwrap().read_integer(), Ok(4));
}

#[test]
fn a_key_inside_a_nested_value_is_not_a_member() {
    let v = value("{\"a\":{\"b\":1},\"c\":[{\"d\":2}],\"e\":\"\\\"f\\\":3\"}");
    assert_eq!(v.get_key_value("b").unwrap_err(), JSONError::KeyNotFound);
    assert_eq!(v.get_key_value("d").unwrap_err(), JSONError::KeyNotFound);
    assert_eq!(v.get_key_value("f").unwrap_err(), JSONError::KeyNotFound);
    assert_eq!(v.get_key_value("a").unwrap().get_key_value("b").unwrap().read_integer(), Ok(1));
    let d = v.get_key_value("c").unwrap().get_nth_array_item(0).unwrap();
    assert_eq!(d.get_key_value("d").unwrap().read_integer(), Ok(2));
}

#[test]
fn a_composite_made_by_hand_yields_the_children_that_can_be_read() {
    let open = JSONValue { contents: "[1, 2", value_type: JSONValueType::Array };
    assert_eq!(open.get_nth_array_item(0).unwrap().contents, "1");
    assert_eq!(open.get_nth_array_item(1).unwrap().contents, "2");
    assert_eq!(open.get_nth_array_item(2).unwrap_err(), JSONError::IndexOutOfBounds);
    let empty = JSONValue { contents: "", value_type: JSONValueType::Array };
    assert_eq!(empty.get_nth_array_item(0).unwrap_err(), JSONError::IndexOutOfBounds);
    let empty = JSONValue { contents: "", value_type: JSONValueType::Object };
    assert_eq!(empty.get_key_value("a").unwrap_err(), JSONError::KeyNotFound);
    let broken = JSONValue { contents: "{\"a\":1,\"b\" 2}", value_type: JSONValueType::Object };
    assert_eq!(broken.get_key_value("a").unwrap().contents, "1");
    assert_eq!(broken.get_key_value("b").unwrap_err(), JSONError::KeyNotFound);
}
