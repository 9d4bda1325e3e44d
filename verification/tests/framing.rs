use codex_desktop::framing::{
    received, Framed, FramingError, HeaderFault, LspFramedReader, LspFramedWriter, NdjsonReader,
    NdjsonWriter, DEFAULT_MAX_MESSAGE_SIZE,
};
use codex_desktop::json::{object1, object2, Json, JsonNumber};
use codex_desktop::json_text::{
    from_value, json_string, read_bytes, read_text, to_value, write_json, MAX_DEPTH,
};
use codex_desktop::jsonrpc::{JsonRpcError, JsonRpcMessage, RequestId};
use serde_json::Value;

fn to_json(v: &Value) -> Json {
    from_value(v.clone())
}

fn from_json(j: &Json) -> Value {
    to_value(j)
}

fn value(text: &str) -> Value {
    serde_json::from_str(text).expect("valid JSON")
}

fn json(text: &str) -> Json {
    to_json(&value(text))
}

fn notification(method: &str) -> JsonRpcMessage {
    JsonRpcMessage(json(&format!(
        "{{\"jsonrpc\": \"2.0\", \"method\": \"{method}\", \"params\": {{\"hello\": \"world\"}}}}"
    )))
}

fn request(id: i64, method: &str) -> JsonRpcMessage {
    JsonRpcMessage(json(&format!(
        "{{\"jsonrpc\": \"2.0\", \"id\": {id}, \"method\": \"{method}\", \"params\": {{\"k\": \"v\"}}}}"
    )))
}

fn response(id: i64) -> JsonRpcMessage {
    JsonRpcMessage(json(&format!(
        "{{\"jsonrpc\": \"2.0\", \"id\": {id}, \"result\": {{\"ok\": true}}}}"
    )))
}

fn message<T: std::fmt::Debug>(read: Result<Framed<T>, FramingError>) -> T {
    match read {
        Ok(Framed::Message(message)) => message,
        other => panic!("expected a message, got {other:?}"),
    }
}

fn is_over<T>(read: Result<Framed<T>, FramingError>) -> bool {
    matches!(read, Ok(Framed::EndOfStream))
}

fn needs_more<T>(read: Result<Framed<T>, FramingError>) -> bool {
    matches!(read, Ok(Framed::NeedMore))
}

#[test]
fn ndjson_round_trip_notification() {
    let msg = notification("ping");
    let mut reader = NdjsonReader::new(());
    reader.feed(&NdjsonWriter::<()>::frame(&msg));
    assert_eq!(message(reader.read_message(true)), msg);
    assert!(is_over(reader.read_message(true)));
}

#[test]
fn ndjson_skips_blank_lines() {
    let mut reader = NdjsonReader::new(());
    reader.feed(b"\n\n{\"jsonrpc\":\"2.0\",\"method\":\"ping\"}\n\n");
    assert_eq!(message(reader.read_message(true)).method(), Some("ping"));
    assert!(is_over(reader.read_message(true)));
}

#[test]
fn ndjson_returns_none_on_eof() {
    let mut reader = NdjsonReader::new(());
    assert!(is_over(reader.read_message(true)));
    assert!(needs_more(reader.read_message(false)));
}

#[test]
fn ndjson_rejects_invalid_json() {
    let mut reader = NdjsonReader::new(());
    reader.feed(b"this-is-not-json\n");
    let err = reader.read_message(true).expect_err("not JSON");
    assert!(matches!(err, FramingError::Parse(_)), "got {err:?}");
    assert!(is_over(reader.read_message(true)));
}

#[test]
fn ndjson_waits_for_the_end_of_a_line() {
    let mut reader = NdjsonReader::new(());
    reader.feed(b"{\"a\":");
    assert!(needs_more(reader.read_line(false)));
    reader.feed(b"1}  \r\n7 \r\nrest");
    assert_eq!(message(reader.read_line(false)), "{\"a\":1}");
    assert_eq!(message(reader.read_message(false)).0, Json::Number(JsonNumber::PosInt(7)));
    assert_eq!(message(reader.read_line(true)), "rest");
}

#[test]
fn ndjson_refuses_lines_that_are_not_text() {
    let mut reader = NdjsonReader::new(());
    reader.feed(&[0xff, 0xfe, 0x0a]);
    assert!(matches!(reader.read_message(true), Err(FramingError::NotText)));
    assert!(is_over(reader.read_message(true)));
}

#[test]
fn lsp_round_trip() {
    let req = request(7, "initialize");
    let resp = response(7);
    let mut reader = LspFramedReader::new(());
    reader.feed(&LspFramedWriter::<()>::frame(&req));
    reader.feed(&LspFramedWriter::<()>::frame(&resp));
    assert_eq!(message(reader.read_message(true)), req);
    assert_eq!(message(reader.read_message(true)), resp);
    assert!(is_over(reader.read_message(true)));
}

#[test]
fn lsp_case_insensitive_header() {
    let body = b"{\"jsonrpc\":\"2.0\",\"method\":\"ping\"}";
    let mut framed = Vec::new();
    framed.extend_from_slice(format!("CoNtEnT-LeNgTh: {}\r\n", body.len()).as_bytes());
    framed.extend_from_slice(b"Content-Type: application/vscode-jsonrpc; charset=utf-8\r\n");
    framed.extend_from_slice(b"\r\n");
    framed.extend_from_slice(body);
    let mut reader = LspFramedReader::new(());
    reader.feed(&framed);
    assert_eq!(message(reader.read_message(false)).method(), Some("ping"));
}

#[test]
fn lsp_missing_content_length() {
    let mut reader = LspFramedReader::new(());
    reader.feed(b"X-Other: 1\r\n\r\n{}");
    match reader.read_message(true) {
        Err(FramingError::InvalidContentLength(fault)) => {
            let msg = fault.message();
            assert!(msg.contains("Content-Length"), "msg = {msg}");
        }
        other => panic!("expected InvalidContentLength, got {other:?}"),
    }
}

#[test]
fn lsp_body_size_limit_enforced() {
    let mut reader = LspFramedReader::with_max_size((), 1024);
    reader.feed(b"Content-Length: 9999\r\n\r\n");
    match reader.read_message(true) {
        Err(FramingError::MessageTooLarge { size, limit }) => {
            assert_eq!(size, 9999);
            assert_eq!(limit, 1024);
        }
        other => panic!("expected MessageTooLarge, got {other:?}"),
    }
}

#[test]
fn lsp_parses_content_length_with_extra_whitespace() {
    let body = b"{\"jsonrpc\":\"2.0\",\"method\":\"ping\"}";
    let mut framed = format!("Content-Length:   {}\r\n\r\n", body.len()).into_bytes();
    framed.extend_from_slice(body);
    let mut reader = LspFramedReader::new(());
    reader.feed(&framed);
    assert_eq!(message(reader.read_message(true)).method(), Some("ping"));
}

fn header_fault(bytes: &[u8]) -> HeaderFault {
    let mut reader = LspFramedReader::new(());
    reader.feed(bytes);
    match reader.read_message(true) {
        Err(FramingError::InvalidContentLength(fault)) => fault,
        other => panic!("expected a fault, got {other:?}"),
    }
}

#[test]
fn lsp_header_faults() {
    assert_eq!(header_fault(b"Content-Length: 3\r\n"), HeaderFault::UnexpectedEof);
    assert_eq!(header_fault(b"no colon\r\n\r\n"), HeaderFault::MalformedLine("no colon".into()));
    let fault = header_fault(b"Content-Length: ten\"\r\n\r\n");
    assert_eq!(fault, HeaderFault::NonNumeric("ten\"".into()));
    assert_eq!(fault.message(), "non-numeric Content-Length: \"ten\\\"\"");
    assert_eq!(HeaderFault::UnexpectedEof.message(), "unexpected EOF inside header block");
    assert_eq!(
        HeaderFault::MalformedLine("x".into()).message(),
        "malformed header line: \"x\""
    );
}

#[test]
fn lsp_waits_for_the_body() {
    let mut reader = LspFramedReader::new(());
    reader.feed(b"Content-Length: 4\r\n\r\nab");
    assert!(needs_more(reader.read_body(false)));
    reader.feed(b"cdef");
    assert_eq!(message(reader.read_body(false)), b"abcd".to_vec());
    assert!(needs_more(reader.read_message(false)));
    let mut short = LspFramedReader::new(());
    short.feed(b"Content-Length: 4\r\n\r\nab");
    assert!(matches!(short.read_message(true), Err(FramingError::UnexpectedEof)));
}

#[test]
fn writers_frame_exactly() {
    let empty = JsonRpcMessage(Json::object(Vec::new()));
    assert_eq!(NdjsonWriter::<()>::frame(&empty), b"{}\n".to_vec());
    assert_eq!(NdjsonWriter::<()>::frame_line(b"{}".to_vec()), b"{}\n".to_vec());
    assert_eq!(LspFramedWriter::<()>::frame(&empty), b"Content-Length: 2\r\n\r\n{}".to_vec());
    assert_eq!(LspFramedWriter::<()>::frame_body(b"ab"), b"Content-Length: 2\r\n\r\nab".to_vec());
    assert_eq!(NdjsonWriter::new(5).into_inner(), 5);
    let mut writer = LspFramedWriter::new(6);
    *writer.inner_mut() = 7;
    assert_eq!(writer.into_inner(), 7);
    assert_eq!(DEFAULT_MAX_MESSAGE_SIZE, 16 * 1024 * 1024);
}

#[test]
fn helper_accessors() {
    let notif = notification("hello");
    assert_eq!(notif.method(), Some("hello"));
    assert!(notif.is_notification());
    assert!(notif.id().is_none());
    assert!(notif.params().is_some());

    let req = request(1, "do");
    assert_eq!(req.method(), Some("do"));
    assert!(!req.is_notification());
    assert!(req.id().is_some());

    let resp = response(1);
    assert_eq!(resp.method(), None);
    assert!(!resp.is_notification());
    assert!(resp.id().is_some());
}

#[test]
fn request_ids_and_errors_are_plain() {
    assert_ne!(RequestId::Number(123), RequestId::String("123".to_string()));
    let err = JsonRpcError { code: -32601, message: "method not found".to_string(), data: None };
    assert_eq!(err.code, -32601);
    assert!(err.data.is_none());
}

#[test]
fn fields_are_found_and_put_in_place() {
    let v = object2("a", Json::Bool(true), "b", Json::Null);
    assert_eq!(v.get("a"), Some(&Json::Bool(true)));
    assert_eq!(v.get("c"), None);
    let w = v.with("b", Json::text("x")).with("c", Json::Bool(false));
    assert_eq!(
        from_json(&w),
        value("{\"a\": true, \"b\": \"x\", \"c\": false}")
    );
    assert_eq!(Json::Null.with("a", Json::Null), Json::Null);
    assert_eq!(object1("k", Json::text("v")).get_str("k"), Some("v"));
}

#[test]
fn messages_are_the_same_however_bytes_arrive() {
    let lines = b"\n  \n{\"a\":1}\n\n{\"b\":2}\n";
    let mut reader = NdjsonReader::new(());
    let mut seen = Vec::new();
    for byte in lines {
        reader.feed(&[*byte]);
        if let Framed::Message(m) = reader.read_message(false).unwrap() {
            seen.push(m.into_value());
        }
    }
    assert_eq!(seen, vec![json("{\"a\":1}"), json("{\"b\":2}")]);

    let mut bytes = LspFramedWriter::<()>::frame(&JsonRpcMessage(json("{\"a\":1}")));
    bytes.extend(LspFramedWriter::<()>::frame(&JsonRpcMessage(json("{}"))));
    let mut reader = LspFramedReader::new(());
    let mut seen = Vec::new();
    for byte in &bytes {
        reader.feed(&[*byte]);
        if let Framed::Message(m) = reader.read_message(false).unwrap() {
            seen.push(m.into_value());
        }
    }
    assert_eq!(seen, vec![json("{\"a\":1}"), json("{}")]);
}

#[test]
fn header_lines_that_end_in_a_bare_line_feed_are_refused() {
    assert_eq!(
        header_fault(b"Content-Length: 2\n\n{}"),
        HeaderFault::MalformedLine("Content-Length: 2".into())
    );
    assert_eq!(
        header_fault(b"Content-Length: 2\r\n\n{}"),
        HeaderFault::MalformedLine(String::new())
    );
    assert_eq!(header_fault(b"Content-Length: 2"), HeaderFault::UnexpectedEof);
}

#[test]
fn bodies_that_are_not_json_are_refused() {
    let mut reader = LspFramedReader::new(());
    reader.feed(b"Content-Length: 3\r\n\r\n{x}Content-Length: 2\r\n\r\n[]");
    assert!(matches!(reader.read_message(false), Err(FramingError::Parse(_))));
    assert_eq!(message(reader.read_message(false)).0, Json::Array(Vec::new()));
    let mut broken = LspFramedReader::new(());
    broken.feed(b"Content-Length: 3\r\n\r\n\"\xff\"");
    assert!(matches!(broken.read_message(false), Err(FramingError::Parse(_))));
}

#[test]
fn text_is_read_into_values() {
    let read = read_text(" {\"b\": [1, -2, null, true], \"a\": \"x\\n\"} ").expect("JSON");
    let items = vec![
        Json::Number(JsonNumber::PosInt(1)),
        Json::Number(JsonNumber::NegInt(-2)),
        Json::Null,
        Json::Bool(true),
    ];
    assert_eq!(read.get("b"), Some(&Json::Array(items)));
    assert_eq!(read.get_str("a"), Some("x\n"));
    assert_eq!(read_bytes(b"\"caf\xc3\xa9\"").expect("JSON"), Json::text("caf\u{e9}"));
    assert!(matches!(read_text("1.5").expect("JSON"), Json::Number(JsonNumber::Float(_))));
    assert!(read_text("{").is_err());
    assert!(read_bytes(b"").is_err());
    let later = read_text("{\"k\": 1, \"k\": 2}").expect("JSON");
    assert_eq!(later, object1("k", Json::integer(2)));
}

#[test]
fn values_are_written_in_the_order_of_their_names() {
    let v = object2("b", Json::integer(-7), "a", Json::text("\n\""));
    assert_eq!(write_json(&v), b"{\"a\":\"\\n\\\"\",\"b\":-7}".to_vec());
    assert_eq!(json_string(&v), "{\"a\":\"\\n\\\"\",\"b\":-7}");
    let twice = Json::Object(vec![
        ("k".to_owned(), Json::integer(1)),
        ("k".to_owned(), Json::integer(2)),
    ]);
    assert_eq!(json_string(&twice), "{\"k\":2}");
    let half = read_text("[2.5, 0]").expect("JSON");
    assert_eq!(json_string(&half), "[2.5,0]");
    assert_eq!(json_string(&Json::Number(JsonNumber::NegInt(3))), "3");
}

#[test]
fn what_is_written_is_read_back() {
    let v = object2("a", Json::Array(vec![Json::integer(i64::MIN), Json::Null]), "b", Json::text("\u{1f600}"));
    assert_eq!(read_text(&json_string(&v)).expect("JSON"), v);
    assert_eq!(read_bytes(&write_json(&v)).expect("JSON"), v);
    let mut deep = Json::Null;
    for _ in 0..MAX_DEPTH {
        deep = Json::Array(vec![deep]);
    }
    assert_eq!(read_text(&json_string(&deep)).expect("JSON"), deep);
    let deeper = Json::Array(vec![deep]);
    assert!(read_text(&json_string(&deeper)).is_err());
}

#[test]
fn values_keep_what_they_hold() {
    let v = value("{\"z\": [{}, [], \"\", 18446744073709551615, -1, 0.5], \"y\": {\"x\": false}}");
    let j = from_value(v.clone());
    assert_eq!(j.get("y").and_then(|y| y.get("x")), Some(&Json::Bool(false)));
    assert_eq!(to_value(&j), v);
    assert_eq!(from_value(Value::from(u64::MAX)), Json::Number(JsonNumber::PosInt(u64::MAX)));
    assert_eq!(from_value(Value::from(-5)), Json::integer(-5));
    assert_eq!(to_value(&Json::integer(5)), Value::from(5));
}

#[test]
fn a_parse_gives_a_message_or_its_error() {
    let m = message(received(Ok(Json::Null)));
    assert_eq!(m, JsonRpcMessage(Json::Null));
    let err = read_text("?").expect_err("not JSON");
    assert!(matches!(received(Err(err)), Err(FramingError::Parse(_))));
}
