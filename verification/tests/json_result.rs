use ipapi::json_result::{
    as_json_error, as_json_result, push_indented, push_json_optional, push_json_string,
};
use rustc_serialize::json::{as_pretty_json, Json};
use rustc_serialize::{Encodable, Encoder};

struct JsonResult<T> {
    data: T,
}

impl<T: Encodable> Encodable for JsonResult<T> {
    fn encode<S: Encoder>(&self, s: &mut S) -> Result<(), S::Error> {
        s.emit_struct("JsonResult", 1, |s| {
            s.emit_struct_field("data", 0, |s| self.data.encode(s))
        })
    }
}

struct JsonError<T> {
    message: T,
}

impl<T: Encodable> Encodable for JsonError<T> {
    fn encode<S: Encoder>(&self, s: &mut S) -> Result<(), S::Error> {
        s.emit_struct("JsonError", 1, |s| {
            s.emit_struct_field("message", 0, |s| self.message.encode(s))
        })
    }
}

fn pretty<T: Encodable>(value: &T) -> String {
    format!("{}", as_pretty_json(value))
}

fn json_string(text: &str) -> String {
    let mut out = String::new();
    push_json_string(&mut out, text);
    out
}

#[test]
fn an_error_is_an_object_with_a_message() {
    assert_eq!(
        as_json_error("invalid IP address syntax"),
        "{\n  \"message\": \"invalid IP address syntax\"\n}\n"
    );
    assert_eq!(as_json_error(""), "{\n  \"message\": \"\"\n}\n");
}

#[test]
fn an_error_message_is_escaped() {
    assert_eq!(
        as_json_error("no \"route\" for\n10.0.0.0\\8"),
        "{\n  \"message\": \"no \\\"route\\\" for\\n10.0.0.0\\\\8\"\n}\n"
    );
}

#[test]
fn an_error_is_what_the_encoder_makes_of_it() {
    for message in ["", "plain", "a \"b\" c", "line\nbreak", "tab\there", "é\u{1}\u{7f}\\"] {
        let expected =
            format!("{}\n", pretty(&JsonError { message: message.to_string() }));
        assert_eq!(as_json_error(message), expected);
    }
}

#[test]
fn a_result_is_an_object_with_data() {
    assert_eq!(as_json_result("null"), "{\n  \"data\": null\n}\n");
    assert_eq!(as_json_result("[]"), "{\n  \"data\": []\n}\n");
    assert_eq!(as_json_result("\"text\""), "{\n  \"data\": \"text\"\n}\n");
}

#[test]
fn the_payload_of_a_result_stands_one_level_deeper() {
    assert_eq!(
        as_json_result("{\n  \"a\": 1,\n  \"b\": [\n    2\n  ]\n}"),
        "{\n  \"data\": {\n    \"a\": 1,\n    \"b\": [\n      2\n    ]\n  }\n}\n"
    );
}

#[test]
fn a_result_is_what_the_encoder_makes_of_it() {
    let values: Vec<Vec<Option<String>>> = vec![
        vec![],
        vec![None],
        vec![Some("a".to_string()), None, Some("line\nbreak \"quoted\"".to_string())],
    ];
    for value in values {
        let expected = format!("{}\n", pretty(&JsonResult { data: value.clone() }));
        assert_eq!(as_json_result(&pretty(&value)), expected);
    }
    let nested = vec![vec![vec![1u32, 2], vec![]], vec![vec![3]]];
    assert_eq!(
        as_json_result(&pretty(&nested)),
        format!("{}\n", pretty(&JsonResult { data: nested }))
    );
}

#[test]
fn a_result_reads_back_as_json() {
    let body = as_json_result("{\n  \"ip\": \"203.0.113.9\",\n  \"name\": null\n}");
    let parsed = Json::from_str(&body).unwrap();
    assert_eq!(parsed.to_string(), "{\"data\":{\"ip\":\"203.0.113.9\",\"name\":null}}");
}

#[test]
fn text_is_indented_after_every_line_break() {
    let mut out = String::from(">");
    push_indented(&mut out, "a\nb\n\nc\n");
    assert_eq!(out, ">a\n  b\n  \n  c\n  ");
    let mut out = String::from(">");
    push_indented(&mut out, "");
    assert_eq!(out, ">");
    let mut out = String::new();
    push_indented(&mut out, "é\nü");
    assert_eq!(out, "é\n  ü");
}

#[test]
fn strings_are_quoted_and_escaped() {
    assert_eq!(json_string(""), "\"\"");
    assert_eq!(json_string("203.0.113.9"), "\"203.0.113.9\"");
    assert_eq!(json_string("a\"b"), "\"a\\\"b\"");
    assert_eq!(json_string("a\\b"), "\"a\\\\b\"");
    assert_eq!(json_string("a\nb\tc\r"), "\"a\\nb\\tc\\r\"");
    assert_eq!(json_string("\u{0}\u{1f}\u{7f}"), "\"\\u0000\\u001f\\u007f\"");
    assert_eq!(json_string("é✓"), "\"é✓\"");
}

#[test]
fn a_missing_string_is_null() {
    let mut out = String::from("x: ");
    push_json_optional(&mut out, &None);
    assert_eq!(out, "x: null");
    let mut out = String::from("x: ");
    push_json_optional(&mut out, &Some("null".to_string()));
    assert_eq!(out, "x: \"null\"");
}
