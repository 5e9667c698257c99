use microjson::{trim_start, JSONError, JSONValue, JSONValueType};

fn scan(text: &str) -> (JSONValueType, &str, usize) {
    let (value, consumed) = JSONValue::parse(text).unwrap();
    (value.value_type, value.contents, consumed)
}

fn failure(text: &str) -> JSONError {
    JSONValue::parse(text).unwrap_err()
}

#[test]
fn consumed_length_leaves_the_exact_remainder() {
    let cases = [
        ("42", ",7"),
        ("-1.5e3", " ]"),
        ("\"a b\"", "x"),
        ("true", "false"),
        ("false", ""),
        ("null", "null"),
        ("[1, [2, 3], {\"k\": []}]", "[4]"),
        ("{\"a\": {\"b\": [\"}\", \"]\"]}}", "}"),
    ];
    let leads = ["", " ", "\t\n", " \r\n\t  "];
    for (value, rest) in cases {
        for lead in leads {
            let input = format!("{}{}{}", lead, value, rest);
            let (found, consumed) = JSONValue::parse(&input).unwrap();
            assert_eq!(found.contents, value);
            assert_eq!(consumed, lead.len() + value.len());
            assert_eq!(&input[consumed..], rest);
        }
    }
}

#[test]
fn trailing_whitespace_is_left_unread() {
    let (value, consumed) = JSONValue::parse("  42\t").unwrap();
    assert_eq!(value.contents, "42");
    assert_eq!(value.read_integer(), Ok(42));
    assert_eq!(&"  42\t"[consumed..], "\t");
    let (value, consumed) = JSONValue::parse("\n 42\r").unwrap();
    assert_eq!(value.read_integer(), Ok(42));
    assert_eq!(&"\n 42\r"[consumed..], "\r");
}

#[test]
fn each_kind_is_recognised_by_its_first_byte() {
    assert_eq!(scan("{}"), (JSONValueType::Object, "{}", 2));
    assert_eq!(scan("[]"), (JSONValueType::Array, "[]", 2));
    assert_eq!(scan("\"\""), (JSONValueType::String, "\"\"", 2));
    assert_eq!(scan("0"), (JSONValueType::Number, "0", 1));
    assert_eq!(scan("-7"), (JSONValueType::Number, "-7", 2));
    assert_eq!(scan("true"), (JSONValueType::Bool, "true", 4));
    assert_eq!(scan("false"), (JSONValueType::Bool, "false", 5));
    assert_eq!(scan("null"), (JSONValueType::Null, "null", 4));
}

#[test]
fn only_the_four_json_whitespace_bytes_are_skipped() {
    assert_eq!(scan(" \t\n\r1"), (JSONValueType::Number, "1", 5));
    assert_eq!(failure("\u{b}1"), JSONError::UnexpectedToken);
    assert_eq!(failure("\u{c}1"), JSONError::UnexpectedToken);
    assert_eq!(failure("\u{a0}1"), JSONError::UnexpectedToken);
    assert_eq!(failure("\u{2003}1"), JSONError::UnexpectedToken);
}

#[test]
fn trim_start_counts_what_it_strips() {
    assert_eq!(trim_start("  \t\r\n42 "), ("42 ", 5));
    assert_eq!(trim_start("42"), ("42", 0));
    assert_eq!(trim_start(""), ("", 0));
    assert_eq!(trim_start(" \n"), ("", 2));
    assert_eq!(trim_start(" é "), ("é ", 1));
    assert_eq!(trim_start("\u{a0}x"), ("\u{a0}x", 0));
}

#[test]
fn a_string_ends_at_the_first_quote_that_is_not_escaped() {
    assert_eq!(scan("\"a\\\"b\" tail"), (JSONValueType::String, "\"a\\\"b\"", 6));
    assert_eq!(scan("\"a\\\\\" tail"), (JSONValueType::String, "\"a\\\\\"", 5));
    assert_eq!(scan("\"a\\\\\\\"b\"x"), (JSONValueType::String, "\"a\\\\\\\"b\"", 8));
    assert_eq!(scan("\"{[,:]}\"]"), (JSONValueType::String, "\"{[,:]}\"", 8));
}

#[test]
fn a_string_that_is_not_closed_is_refused() {
    assert_eq!(failure("\""), JSONError::UnexpectedEndOfStream);
    assert_eq!(failure("\"abc"), JSONError::UnexpectedEndOfStream);
    assert_eq!(failure("\"abc\\\""), JSONError::UnexpectedEndOfStream);
    assert_eq!(failure("[\"abc]"), JSONError::UnexpectedEndOfStream);
}

#[test]
fn text_that_is_not_ascii_is_measured_in_bytes() {
    let input = " \"héllo \u{1f600}\" , 1";
    let (value, consumed) = JSONValue::parse(input).unwrap();
    assert_eq!(value.value_type, JSONValueType::String);
    assert_eq!(value.contents, "\"héllo \u{1f600}\"");
    assert_eq!(consumed, 1 + "\"héllo \u{1f600}\"".len());
    assert_eq!(value.read_string(), Ok("héllo \u{1f600}"));
    assert_eq!(&input[consumed..], " , 1");
    assert_eq!(failure("é"), JSONError::UnexpectedToken);
}

#[test]
fn a_number_is_the_longest_run_of_number_bytes() {
    assert_eq!(scan("12.5e3,"), (JSONValueType::Number, "12.5e3", 6));
    assert_eq!(scan("1E5 "), (JSONValueType::Number, "1E5", 3));
    assert_eq!(scan("1 -2"), (JSONValueType::Number, "1", 1));
    assert_eq!(scan("-"), (JSONValueType::Number, "-", 1));
    assert_eq!(scan("1..2ee"), (JSONValueType::Number, "1..2ee", 6));
}

#[test]
fn a_minus_inside_a_number_is_refused() {
    assert_eq!(failure("1-2"), JSONError::NumberFormatError);
    assert_eq!(failure("--1"), JSONError::NumberFormatError);
    assert_eq!(failure("1e-5"), JSONError::NumberFormatError);
    assert_eq!(failure("[1, 2-]"), JSONError::NumberFormatError);
}

#[test]
fn literals_must_be_spelled_out() {
    assert_eq!(failure("tru"), JSONError::UnrecognizedLiteral);
    assert_eq!(failure("t"), JSONError::UnrecognizedLiteral);
    assert_eq!(failure("trux"), JSONError::UnrecognizedLiteral);
    assert_eq!(failure("fals"), JSONError::UnrecognizedLiteral);
    assert_eq!(failure("falsy"), JSONError::UnrecognizedLiteral);
    assert_eq!(failure("nul"), JSONError::UnrecognizedLiteral);
    assert_eq!(failure("nil!"), JSONError::UnrecognizedLiteral);
    assert_eq!(scan("truex"), (JSONValueType::Bool, "true", 4));
    assert_eq!(scan("nullnull"), (JSONValueType::Null, "null", 4));
}

#[test]
fn what_starts_no_value_is_refused() {
    assert_eq!(failure(""), JSONError::UnexpectedToken);
    assert_eq!(failure("   "), JSONError::UnexpectedToken);
    assert_eq!(failure("x"), JSONError::UnexpectedToken);
    assert_eq!(failure("]"), JSONError::UnexpectedToken);
    assert_eq!(failure(",1"), JSONError::UnexpectedToken);
    assert_eq!(failure("+1"), JSONError::UnexpectedToken);
    assert_eq!(failure(".5"), JSONError::UnexpectedToken);
    assert_eq!(failure("["), JSONError::UnexpectedToken);
    assert_eq!(failure("{"), JSONError::UnexpectedToken);
    assert_eq!(failure("[1,"), JSONError::UnexpectedToken);
    assert_eq!(failure("[,]"), JSONError::UnexpectedToken);
    assert_eq!(failure("{\"a\":"), JSONError::UnexpectedToken);
    assert_eq!(failure("{\"a\":}"), JSONError::UnexpectedToken);
}

#[test]
fn an_array_that_stops_short_is_refused() {
    assert_eq!(failure("[1"), JSONError::UnexpectedEndOfStream);
    assert_eq!(failure("[1 "), JSONError::UnexpectedEndOfStream);
    assert_eq!(failure("[[1]"), JSONError::UnexpectedEndOfStream);
    assert_eq!(failure("[1 2]"), JSONError::InvalidToken);
    assert_eq!(failure("[1}"), JSONError::InvalidToken);
    assert_eq!(failure("[1:2]"), JSONError::InvalidToken);
}

#[test]
fn an_object_that_is_malformed_is_refused() {
    assert_eq!(failure("{1:2}"), JSONError::InvalidObjectKey);
    assert_eq!(failure("{true:2}"), JSONError::InvalidObjectKey);
    assert_eq!(failure("{[]:2}"), JSONError::InvalidObjectKey);
    assert_eq!(failure("{\"a\""), JSONError::UnexpectedEndOfStream);
    assert_eq!(failure("{\"a\" "), JSONError::UnexpectedEndOfStream);
    assert_eq!(failure("{\"a\":1"), JSONError::UnexpectedEndOfStream);
    assert_eq!(failure("{\"a\" 1}"), JSONError::InvalidToken);
    assert_eq!(failure("{\"a\",1}"), JSONError::InvalidToken);
    assert_eq!(failure("{\"a\":1 \"b\":2}"), JSONError::InvalidToken);
    assert_eq!(failure("{\"a\":1]"), JSONError::InvalidToken);
}

#[test]
fn a_failure_inside_is_handed_up_unchanged() {
    assert_eq!(failure("[[[tru]]]"), JSONError::UnrecognizedLiteral);
    assert_eq!(failure("{\"a\":[1,{\"b\":1-1}]}"), JSONError::NumberFormatError);
    assert_eq!(failure("[{\"a\":{2:3}}]"), JSONError::InvalidObjectKey);
}

#[test]
fn a_comma_before_the_closing_delimiter_is_accepted() {
    assert_eq!(scan("[1,]"), (JSONValueType::Array, "[1,]", 4));
    assert_eq!(scan("{\"a\":1,}"), (JSONValueType::Object, "{\"a\":1,}", 8));
    assert_eq!(scan("[1 , ] x"), (JSONValueType::Array, "[1 , ]", 6));
}

#[test]
fn brackets_are_matched_by_depth_and_strings_hide_them() {
    assert_eq!(scan("{\"foo\":[{}]}"), (JSONValueType::Object, "{\"foo\":[{}]}", 12));
    assert_eq!(scan("[{\"foo\":{}}]"), (JSONValueType::Array, "[{\"foo\":{}}]", 12));
    let text = "{\"a\":{\"email\":\"d@\"},\"m\":\"#20\\n\\n.\\n\"}";
    assert_eq!(scan(text), (JSONValueType::Object, text, text.len()));
    assert_eq!(scan("[\"]\", \"[\"]]"), (JSONValueType::Array, "[\"]\", \"[\"]", 10));
    assert_eq!(scan("[[1],[2]],[3]"), (JSONValueType::Array, "[[1],[2]]", 9));
}
