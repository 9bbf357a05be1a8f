use bytes::Bytes;
use flate2::write::GzEncoder;
use flate2::Compression;
use serde_json::{Number, Value};
use sharphttp::header_list::{get_header_value, list_of};
use sharphttp::json::{give, read_json, Document, Json};
use sharphttp::response::{header_text, response_headers, Response};
use std::io::Write;

fn response(headers: &[(&str, &str)], body: &'static [u8]) -> Response {
    let headers = headers.iter().map(|(n, v)| (n.to_string(), v.to_string())).collect();
    Response::new(200, list_of(headers), Bytes::from_static(body))
}

#[test]
fn status_and_headers_are_given() {
    let response = response(&[("a", "1"), ("b", "2"), ("a", "3")], b"");
    assert_eq!(response.status(), 200);
    let headers = response.headers();
    assert_eq!(headers.len(), 2);
    assert_eq!(headers["a"], "3");
    assert_eq!(headers["b"], "2");
}

#[test]
fn header_values_are_text_or_empty() {
    assert_eq!(header_text(b"text/html; charset=utf-8"), "text/html; charset=utf-8");
    assert_eq!(header_text(b"a\tb ~"), "a\tb ~");
    assert_eq!(header_text(b"caf\xE9"), "");
    assert_eq!(header_text(b"a\x7F"), "");
    assert_eq!(header_text(b"a\nb"), "");
    assert_eq!(header_text(b""), "");
}

#[test]
fn received_headers_keep_their_order() {
    let list = response_headers(&[
        ("set-cookie".to_string(), b"a=1".to_vec()),
        ("x".to_string(), b"\xFF".to_vec()),
        ("set-cookie".to_string(), b"b=2".to_vec()),
    ]);
    assert_eq!(get_header_value(&list, "set-cookie"), Some(&"a=1".to_string()));
    assert_eq!(get_header_value(&list, "x"), Some(&String::new()));
    let response = Response::new(204, list, Bytes::new());
    assert_eq!(response.status(), 204);
    assert_eq!(response.headers()["set-cookie"], "b=2");
}

#[test]
fn text_is_read() {
    let response = response(&[("content-type", "text/plain")], b"caf\xE9");
    assert_eq!(response.text(), Ok("caf\u{e9}".to_string()));
    assert_eq!(response.try_text(), Some(Ok("caf\u{e9}".to_string())));
}

#[test]
fn a_broken_body_has_no_text_and_no_json() {
    let response = response(&[("content-encoding", "gzip")], b"{}");
    assert_eq!(response.try_text(), Some(Err("unexpected end of file".to_string())));
    assert_eq!(response.json().err(), Some("unexpected end of file".to_string()));
}

#[test]
fn json_is_read() {
    assert!(matches!(response(&[], b"null").json(), Ok(Json::Null)));
    assert!(matches!(response(&[], b"true").json(), Ok(Json::Bool(true))));
    assert!(matches!(response(&[], b" -7 ").try_json(), Some(Ok(Json::Int(-7)))));
    match response(&[], b"\"a\\u00e9\"").json() {
        Ok(Json::Text(text)) => assert_eq!(text, "a\u{e9}"),
        _ => panic!("not a text"),
    }
    assert!(response(&[], b"{").json().is_err());
}

#[test]
fn numbers_are_whole_where_they_can_be() {
    let bits = |text: &str| match read_json(text) {
        Ok(Json::Float(bits)) => f64::from_bits(bits),
        _ => panic!("not a float"),
    };
    assert!(matches!(read_json("9223372036854775807"), Ok(Json::Int(i64::MAX))));
    assert!(matches!(read_json("-9223372036854775808"), Ok(Json::Int(i64::MIN))));
    assert_eq!(bits("9223372036854775808"), 9223372036854775808.0);
    assert_eq!(bits("1.5"), 1.5);
    assert_eq!(bits("1.0"), 1.0);
}

#[test]
fn a_document_is_given_by_its_kind() {
    assert!(matches!(give(Document::Null), Json::Null));
    assert!(matches!(give(Document::Bool(false)), Json::Bool(false)));
    assert!(matches!(give(Document::Number(Number::from(-3))), Json::Int(-3)));
    assert!(matches!(give(Document::Number(Number::from(u64::MAX))), Json::Float(_)));
    match give(Document::Text("\"x\"".to_string())) {
        Json::Text(text) => assert_eq!(text, "\"x\""),
        _ => panic!("not a text"),
    }
    match give(Document::Array(vec![Value::Null, Value::from("a\n"), Value::from(2.5)])) {
        Json::List(items) => assert_eq!(items, ["null", "\"a\\n\"", "2.5"]),
        _ => panic!("not a list"),
    }
    let members = vec![("k".to_string(), Value::from(1)), ("k".to_string(), Value::from(2))];
    match give(Document::Object(members)) {
        Json::Dict(members) => {
            assert_eq!(members.len(), 1);
            assert_eq!(members["k"], "2");
        }
        _ => panic!("not a dict"),
    }
}

#[test]
fn the_texts_give_the_document_back() {
    let text = "[1,-2,18446744073709551615,\"\u{e9}\\u0000\",[[],{\"a\":[true]}],null]";
    let value: Value = serde_json::from_str(text).unwrap();
    match read_json(text) {
        Ok(Json::List(items)) => {
            let back: Vec<Value> =
                items.iter().map(|item| serde_json::from_str(item).unwrap()).collect();
            assert_eq!(Value::Array(back), value);
        }
        _ => panic!("not a list"),
    }
    let text = "{\"a\":{\"b\":[1]},\"\":\"x\"}";
    let value: Value = serde_json::from_str(text).unwrap();
    match read_json(text) {
        Ok(Json::Dict(members)) => {
            assert_eq!(members.len(), 2);
            for (name, member) in &members {
                assert_eq!(serde_json::from_str::<Value>(member).unwrap(), value[name]);
            }
        }
        _ => panic!("not a dict"),
    }
}

#[test]
fn arrays_may_nest_up_to_a_limit() {
    let nested = |depth: usize| format!("{}{}", "[".repeat(depth), "]".repeat(depth));
    match read_json(&nested(127)) {
        Ok(Json::List(items)) => assert_eq!(items, [nested(126)]),
        _ => panic!("not a list"),
    }
    assert!(read_json(&nested(128)).is_err());
}

#[test]
fn items_and_members_are_json_texts() {
    match read_json("[1, \"a\", [true, null], {\"b\": 2}]") {
        Ok(Json::List(items)) => assert_eq!(items, ["1", "\"a\"", "[true,null]", "{\"b\":2}"]),
        _ => panic!("not a list"),
    }
    match read_json("{\"a\": 1, \"b\": \"x\", \"a\": 2}") {
        Ok(Json::Dict(members)) => {
            assert_eq!(members.len(), 2);
            assert_eq!(members["a"], "2");
            assert_eq!(members["b"], "\"x\"");
        }
        _ => panic!("not a dict"),
    }
}

#[test]
fn a_text_that_is_no_json_is_an_error() {
    assert_eq!(read_json("").err(), Some("EOF while parsing a value at line 1 column 0".to_string()));
    assert_eq!(read_json("nope").err(), Some("expected ident at line 1 column 2".to_string()));
}

#[test]
fn a_coded_body_is_read_once_its_coding_is_undone() {
    let mut encoder = GzEncoder::new(Vec::new(), Compression::default());
    encoder.write_all(b"[1, {\"a\": \"b\"}]").unwrap();
    let headers = list_of(vec![("content-encoding".to_string(), "gzip".to_string())]);
    let response = Response::new(200, headers, Bytes::from(encoder.finish().unwrap()));
    assert_eq!(response.text(), Ok("[1, {\"a\": \"b\"}]".to_string()));
    assert_eq!(response.try_text(), Some(response.text()));
    for json in [response.json(), response.try_json().unwrap()] {
        match json {
            Ok(Json::List(items)) => assert_eq!(items, ["1", "{\"a\":\"b\"}"]),
            _ => panic!("not a list"),
        }
    }
}

#[test]
fn a_broken_body_gives_the_same_error_each_way() {
    let response = response(&[("content-encoding", "gzip")], b"{}");
    assert_eq!(response.try_text(), Some(response.text()));
    assert_eq!(response.try_json().unwrap().err(), response.json().err());
}
