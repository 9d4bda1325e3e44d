use codex_desktop::agent::envelope::{IncomingServerNotification, UnknownNotification};
use codex_desktop::desktop::agent_bridge::{
    classify_notification, BridgeAction, BridgeEvent, Supervisor as Bridge, TurnSlot,
};
use codex_desktop::desktop::agent_role::process_message;
use codex_desktop::desktop::chat::{composed_message, message_class};
use codex_desktop::desktop::lspd_frame::{read_lsp_frame, LspFrame, LspFrameError};
use codex_desktop::desktop::lspd_role::{
    forwarded_reply, handshake_capabilities, handshake_done, handshake_frame, handshake_request,
    handshake_step, invalid_request, is_blank_line, is_shutdown, lspd_error_to_json, pump_message,
    pump_step, server_invocation, started_reply, HandshakeEvent, HandshakeStep, LspdError,
    LspdRequest, LspdStep, StartParams, StartStep, Supervisor, INIT_TIMEOUT_SECS,
};
use codex_desktop::desktop::portal::{is_appearance, ColorScheme};
use codex_desktop::desktop::role::{
    detect_role_from_argv0, detect_role_with_env, Role, FORCE_ROLE_ENV,
};
use codex_desktop::framing::LspFramedWriter;
use codex_desktop::json::Json;
use codex_desktop::json_text::{from_value, read_text, to_value};
use codex_desktop::jsonrpc::JsonRpcMessage;
use codex_desktop::wal::config::{done_file_name, wal_file_name};
use codex_desktop::wal::record::{decode_records, encode_record, RecordKind};
use serde_json::Value;

fn to_json(v: &Value) -> Json {
    from_value(v.clone())
}

fn from_json(j: &Json) -> Value {
    to_value(j)
}

fn value(text: &str) -> Value {
    serde_json::from_str(text).expect("valid JSON")
}

fn json(text: &str) -> Json {
    to_json(&value(text))
}

fn unknown(method: &str, params: &str) -> IncomingServerNotification {
    IncomingServerNotification::Unknown(UnknownNotification {
        method: method.into(),
        params: json(params),
    })
}

#[test]
fn classify_message_delta() {
    match classify_notification(&unknown("agent/message_delta", "{\"delta\": \"hello\"}")) {
        Some(BridgeEvent::MessageDelta { text }) => assert_eq!(text, "hello"),
        other => panic!("expected MessageDelta, got {other:?}"),
    }
}

#[test]
fn classify_turn_completed() {
    match classify_notification(&unknown("agent/turn_completed", "{\"stop_reason\": \"end_turn\"}"))
    {
        Some(BridgeEvent::TurnCompleted { stop_reason }) => assert_eq!(stop_reason, "end_turn"),
        other => panic!("expected TurnCompleted, got {other:?}"),
    }
}

#[test]
fn classify_unknown_method_returns_none() {
    assert!(classify_notification(&unknown("agent/something_new", "{}")).is_none());
}

#[test]
fn message_delta_missing_field_yields_empty_string() {
    match classify_notification(&unknown("agent/message_delta", "{}")) {
        Some(BridgeEvent::MessageDelta { text }) => assert_eq!(text, ""),
        other => panic!("expected MessageDelta, got {other:?}"),
    }
}

fn cbor(fields: &[(&str, &str)]) -> Vec<u8> {
    let value = ciborium::Value::Map(
        fields
            .iter()
            .map(|(k, v)| {
                (ciborium::Value::Text((*k).into()), ciborium::Value::Text((*v).into()))
            })
            .collect(),
    );
    let mut out = Vec::new();
    ciborium::into_writer(&value, &mut out).expect("serialise");
    out
}

#[test]
fn wal_sink_records_user_op_and_notification() {
    let mut slot = TurnSlot::new();
    let mut log = Vec::new();
    assert!(slot.needs_open());
    slot.opened("s1");
    log.extend(encode_record(RecordKind::UserOp, &cbor(&[("prompt", "hello world")])).unwrap());
    assert!(!slot.needs_open());
    let notif = cbor(&[("method", "agent/message_delta"), ("params_json", "{\"delta\":\"hi\"}")]);
    log.extend(encode_record(RecordKind::ServerNotification, &notif).unwrap());
    let turn = slot.complete().expect("a log was open");
    assert_eq!(done_file_name(&wal_file_name(&turn)), "s1.wal.done");

    let records = decode_records(&log).expect("replay succeeds");
    assert_eq!(records.len(), 2, "expected 2 records, got {}", records.len());
    assert_eq!(records[0].kind, RecordKind::UserOp);
    assert_eq!(records[1].kind, RecordKind::ServerNotification);
    let back: ciborium::Value = ciborium::from_reader(records[1].payload.as_slice()).unwrap();
    assert_eq!(back.as_map().unwrap()[0].1.as_text(), Some("agent/message_delta"));
    assert_eq!(back.as_map().unwrap()[1].1.as_text(), Some("{\"delta\":\"hi\"}"));

    assert_eq!(slot.complete(), None);
}

#[test]
fn a_prompt_is_logged_and_submitted_under_a_new_id() {
    let mut bridge = Bridge::new(true);
    let first = bridge.on_prompt("hello");
    assert_eq!(first.len(), 2);
    match (&first[0], &first[1]) {
        (BridgeAction::RecordUserOp { turn_id, prompt }, BridgeAction::Submit(sub)) => {
            assert_eq!(turn_id, "s1");
            assert_eq!(prompt, "hello");
            assert_eq!(sub.id.as_str(), "s1");
            assert_eq!(sub.thread_id.as_str(), "default");
            assert_eq!(from_json(&sub.payload), value("{\"text\": \"hello\"}"));
        }
        other => panic!("unexpected {other:?}"),
    }
    let delta = bridge.on_notification(&unknown("agent/message_delta", "{\"delta\": \"x\"}"));
    assert_eq!(
        delta[0],
        BridgeAction::RecordNotification {
            turn_id: "s1".into(),
            method: "agent/message_delta".into(),
            params_json: "{\"delta\":\"x\"}".into(),
        }
    );
    assert!(matches!(&delta[1], BridgeAction::Emit(BridgeEvent::MessageDelta { text }) if text == "x"));
    let done =
        bridge.on_notification(&unknown("agent/turn_completed", "{\"stop_reason\": \"end\"}"));
    assert!(done.iter().any(|a| matches!(a, BridgeAction::CompleteTurn)));
    assert!(done
        .iter()
        .any(|a| matches!(a, BridgeAction::Emit(BridgeEvent::TurnCompleted { .. }))));
    let second = bridge.on_prompt("again");
    assert!(matches!(&second[1], BridgeAction::Submit(sub) if sub.id.as_str() == "s2"));
    assert_eq!(bridge.submitted(), 2);
    assert_eq!(bridge.on_end(), BridgeEvent::AgentClosed);
    assert_eq!(bridge.on_submit_failed(), BridgeEvent::AgentClosed);
    assert_eq!(Bridge::hello("0.1.0").client_info.name, "codex-desktop");
}

#[test]
fn nothing_is_logged_without_a_log() {
    let mut bridge = Bridge::new(false);
    let actions = bridge.on_prompt("hello");
    assert_eq!(actions.len(), 1);
    assert!(matches!(&actions[0], BridgeAction::Submit(_)));
    let delta = bridge.on_notification(&unknown("agent/message_delta", "{}"));
    assert_eq!(delta.len(), 1);
}

fn run_one(request: &str) -> (Vec<Value>, bool) {
    let msg = JsonRpcMessage::new(json(request));
    let (replies, cont) = process_message(&msg);
    (replies.iter().map(from_json).collect(), cont)
}

#[test]
fn initialize_returns_server_info() {
    let (msgs, cont) =
        run_one("{\"jsonrpc\": \"2.0\", \"id\": 1, \"method\": \"initialize\"}");
    assert!(cont, "initialize should not break the loop");
    assert_eq!(msgs.len(), 1);
    assert_eq!(msgs[0]["id"], Value::from(1));
    assert_eq!(msgs[0]["result"]["server_info"]["name"], "codex-agent-stub");
    assert_eq!(msgs[0]["result"]["protocol_version"], "0.0.0-pr-b");
}

#[test]
fn submit_acks_and_streams_two_notifications() {
    let (msgs, cont) = run_one(
        "{\"jsonrpc\": \"2.0\", \"id\": 42, \"method\": \"submit\", \"params\": {\"payload\": {\"text\": \"hello world\"}}}",
    );
    assert!(cont, "submit should not break the loop");
    assert_eq!(msgs.len(), 3, "ack + 2 notifications expected");
    assert_eq!(msgs[0]["id"], Value::from(42));
    assert_eq!(msgs[0]["result"]["accepted"], Value::from(true));
    assert_eq!(msgs[1]["method"], "agent/message_delta");
    assert_eq!(msgs[1]["params"]["delta"], "hello world");
    assert!(msgs[1].get("id").is_none());
    assert_eq!(msgs[2]["method"], "agent/turn_completed");
    assert_eq!(msgs[2]["params"]["stop_reason"], "end_turn");
}

#[test]
fn submit_without_payload_text_uses_placeholder() {
    let (msgs, cont) =
        run_one("{\"jsonrpc\": \"2.0\", \"id\": 7, \"method\": \"submit\", \"params\": {}}");
    assert!(cont);
    assert_eq!(msgs.len(), 3);
    assert_eq!(msgs[1]["params"]["delta"], "(no payload.text)");
}

#[test]
fn unknown_method_returns_method_not_found_error() {
    let (msgs, cont) = run_one(
        "{\"jsonrpc\": \"2.0\", \"id\": \"abc\", \"method\": \"definitely_not_a_method\"}",
    );
    assert!(cont, "unknown methods do not break the loop");
    assert_eq!(msgs.len(), 1);
    assert_eq!(msgs[0]["id"], "abc");
    assert_eq!(msgs[0]["error"]["code"].as_i64(), Some(-32601));
    let message = msgs[0]["error"]["message"].as_str().unwrap_or("");
    assert!(
        message.contains("definitely_not_a_method"),
        "message should name the bad method, got {message:?}"
    );
}

#[test]
fn shutdown_writes_response_and_breaks_loop() {
    let (msgs, cont) =
        run_one("{\"jsonrpc\": \"2.0\", \"id\": 99, \"method\": \"shutdown\"}");
    assert!(!cont, "shutdown should break the loop");
    assert_eq!(msgs.len(), 1);
    assert_eq!(msgs[0]["id"], Value::from(99));
    assert_eq!(msgs[0]["result"]["ok"].as_bool(), Some(true));
    assert_eq!(msgs[0]["result"]["note"], "goodbye");
}

#[test]
fn interrupt_returns_ack() {
    let (msgs, cont) =
        run_one("{\"jsonrpc\": \"2.0\", \"id\": 5, \"method\": \"interrupt\"}");
    assert!(cont);
    assert_eq!(msgs.len(), 1);
    assert_eq!(msgs[0]["result"]["note"], "interrupted");
}

#[test]
fn non_method_message_is_ignored_silently() {
    let (msgs, cont) =
        run_one("{\"jsonrpc\": \"2.0\", \"id\": 1, \"result\": {\"ok\": true}}");
    assert!(cont);
    assert!(msgs.is_empty(), "no output expected, got {msgs:?}");
}

#[test]
fn server_invocation_table_known_languages() {
    assert!(server_invocation("rust").is_some());
    assert!(server_invocation("python").is_some());
    assert!(server_invocation("typescript").is_some());
    assert!(server_invocation("javascript").is_some());
    assert!(server_invocation("go").is_some());
    assert!(server_invocation("klingon").is_none());
    assert!(server_invocation("").is_none());
    let python = server_invocation("python").unwrap();
    assert_eq!(python.bin, "pyright-langserver");
    assert_eq!(python.args, vec!["--stdio".to_owned()]);
    assert!(server_invocation("go").unwrap().args.is_empty());
}

#[test]
fn lsp_frame_round_trip() {
    let sent = value("{\"id\": 1, \"method\": \"initialize\", \"x\": [1, 2, 3]}");
    let buf = LspFramedWriter::<()>::frame(&JsonRpcMessage::new(to_json(&sent)));
    assert!(String::from_utf8_lossy(&buf).starts_with("Content-Length: "));
    match read_lsp_frame(&buf, true) {
        Ok(LspFrame::Message { text, used }) => {
            assert_eq!(value(&text), sent);
            assert_eq!(used, buf.len());
        }
        other => panic!("frame expected, got {other:?}"),
    }
}

#[test]
fn lsp_frame_clean_eof_returns_none() {
    assert_eq!(read_lsp_frame(&Vec::new(), true), Ok(LspFrame::EndOfStream));
}

#[test]
fn lsp_frame_rejects_missing_content_length() {
    let bytes = b"X-Header: 1\r\n\r\n".to_vec();
    assert_eq!(read_lsp_frame(&bytes, true), Err(LspFrameError::LengthMissing));
}

#[test]
fn lsp_frame_faults() {
    let read = |bytes: &[u8], eof: bool| read_lsp_frame(&bytes.to_vec(), eof);
    assert_eq!(read(b"Content-Len", false), Ok(LspFrame::NeedMore));
    assert_eq!(read(b"Content-Len", true), Err(LspFrameError::EofInHeader));
    assert_eq!(
        read(b"Content-Length: x\r\n\r\n", true),
        Err(LspFrameError::LengthNotNumber)
    );
    assert_eq!(read(b"CONTENT-LENGTH: 1\r\n\r\na", true), Err(LspFrameError::LengthMissing));
    assert_eq!(read(b"content-length: 2\r\n\r\na", true), Err(LspFrameError::EofInBody));
    assert_eq!(read(b"content-length: 2\r\n\r\na", false), Ok(LspFrame::NeedMore));
    assert_eq!(
        read(&[0xff, 0x0d, 0x0a, 0x0d, 0x0a], true),
        Err(LspFrameError::HeaderNotText)
    );
    assert_eq!(
        read(b"Content-Length: 1\r\n\r\n\xff", true),
        Err(LspFrameError::BodyNotText)
    );
    assert_eq!(
        read(b"Content-Length: 1\r\nContent-Length: 2\r\n\r\nabc", true),
        Ok(LspFrame::Message { text: "ab".to_owned(), used: 42 })
    );
}

fn parse_request(line: &str) -> LspdRequest {
    let v = value(line);
    LspdRequest {
        id: to_json(&v["id"]),
        method: v["method"].as_str().expect("a method").to_owned(),
        params: to_json(v.get("params").unwrap_or(&Value::Null)),
    }
}

fn start_params(v: &Json) -> Result<StartParams, String> {
    match v.get_str("language") {
        Some(language) => Ok(StartParams {
            language: language.to_owned(),
            root_uri: v.get_str("root_uri").map(str::to_owned),
        }),
        None => Err("missing field `language`".to_owned()),
    }
}

fn dispatch_line(supervisor: &mut Supervisor<Vec<Json>>, line: &str) -> Value {
    let req = parse_request(line);
    match supervisor.handle_request(&req, "0.1.0") {
        LspdStep::Reply(v) => from_json(&v),
        LspdStep::Start => {
            match supervisor.start(req.id.clone(), &start_params(&req.params), false) {
                StartStep::Reply(v) => from_json(&v),
                StartStep::Spawn(command) => panic!("unexpected spawn {command:?}"),
            }
        }
        LspdStep::Forward(forward) => {
            let mut queue = supervisor.server(&forward.server_id).cloned().unwrap_or_default();
            queue.push(forward.notification);
            supervisor.register(&forward.server_id, queue);
            from_json(&forwarded_reply(req.id, &forward.server_id, true))
        }
    }
}

#[test]
fn unknown_method_returns_method_not_found() {
    let mut supervisor = Supervisor::new();
    let line = "{\"jsonrpc\":\"2.0\",\"id\":\"1\",\"method\":\"lsp/teleport\",\"params\":{}}";
    let resp = dispatch_line(&mut supervisor, line);
    assert_eq!(resp["error"]["code"], Value::from(-32601));
    assert!(resp["error"]["message"].as_str().unwrap_or_default().contains("lsp/teleport"));
}

#[test]
fn lsp_start_unknown_language_returns_invalid_params() {
    let mut supervisor = Supervisor::new();
    let line = "{\"jsonrpc\":\"2.0\",\"id\":\"1\",\"method\":\"lsp/start\",\"params\":{\"language\":\"klingon\"}}";
    let resp = dispatch_line(&mut supervisor, line);
    assert_eq!(resp["error"]["code"], Value::from(-32602));
}

#[test]
fn lsp_start_known_language_returns_server_id() {
    let mut supervisor = Supervisor::new();
    let line = "{\"jsonrpc\":\"2.0\",\"id\":\"1\",\"method\":\"lsp/start\",\"params\":{\"language\":\"rust\",\"root_uri\":\"file:///x\"}}";
    let resp = dispatch_line(&mut supervisor, line);
    assert!(resp["result"]["server_id"].is_string());
    assert_eq!(resp["result"]["server_id"], "srv0");
    assert_eq!(resp["result"]["would_invoke"]["bin"], "rust-analyzer");
    let again = dispatch_line(&mut supervisor, line);
    assert_eq!(again["result"]["server_id"], "srv1");
}

#[test]
fn initialize_returns_capabilities() {
    let mut supervisor = Supervisor::new();
    let line = "{\"jsonrpc\":\"2.0\",\"id\":\"1\",\"method\":\"initialize\",\"params\":{}}";
    let resp = dispatch_line(&mut supervisor, line);
    assert_eq!(resp["result"]["server_info"]["name"], "codex-lspd");
    assert!(resp["result"]["supported_methods"]
        .as_array()
        .unwrap()
        .iter()
        .any(|m| m == "lsp/start"));
    for m in ["lsp/textDocumentDidOpen", "lsp/textDocumentDidChange", "lsp/textDocumentDidClose"] {
        assert!(
            resp["result"]["supported_methods"].as_array().unwrap().iter().any(|s| s == m),
            "supported_methods missing {m}",
        );
    }
}

#[test]
fn shutdown_returns_ok() {
    let mut supervisor = Supervisor::new();
    let line = "{\"jsonrpc\":\"2.0\",\"id\":\"99\",\"method\":\"shutdown\"}";
    let resp = dispatch_line(&mut supervisor, line);
    assert_eq!(resp["result"]["shutdown"], Value::from(true));
    assert!(is_shutdown(&to_json(&resp)));
}

#[test]
fn forward_to_unknown_server_id_returns_invalid_params() {
    let mut supervisor = Supervisor::new();
    let line = "{\"jsonrpc\":\"2.0\",\"id\":\"1\",\"method\":\"lsp/textDocumentDidChange\",\"params\":{\"server_id\":\"srv999\",\"text_document\":{\"uri\":\"file:///x\",\"version\":1},\"content_changes\":[{\"text\":\"y\"}]}}";
    let resp = dispatch_line(&mut supervisor, line);
    assert_eq!(resp["error"]["code"], Value::from(-32602));
    assert!(resp["error"]["message"].as_str().unwrap_or_default().contains("srv999"));
}

#[test]
fn forward_did_change_writes_lsp_notification_to_server() {
    let init = from_json(&handshake_request(7, Some("file:///tmp"), "0.1.0"));
    assert_eq!(init["method"], "initialize");
    assert_eq!(init["params"]["rootUri"], "file:///tmp");
    let reply =
        "{\"jsonrpc\": \"2.0\", \"id\": 1, \"result\": {\"capabilities\": {\"textDocumentSync\": 1}}}";
    let capabilities = match handshake_step(&HandshakeEvent::Frame(reply.to_owned())) {
        HandshakeStep::Done(capabilities) => capabilities,
        _ => panic!("expected the answer to the handshake"),
    };
    assert_eq!(from_json(&capabilities)["textDocumentSync"], Value::from(1));
    assert_eq!(from_json(&handshake_done())["method"], "initialized");

    let mut supervisor = Supervisor::new();
    let server_id = supervisor.next_id();
    assert!(server_id.starts_with("srv"));
    supervisor.register(&server_id, Vec::new());
    let line = format!(
        "{{\"jsonrpc\":\"2.0\",\"id\":\"42\",\"method\":\"lsp/textDocumentDidChange\",\"params\":{{\"server_id\":\"{server_id}\",\"text_document\":{{\"uri\":\"file:///x.rs\",\"version\":2}},\"content_changes\":[{{\"text\":\"fn main() {{}}\"}}]}}}}"
    );
    let resp = dispatch_line(&mut supervisor, &line);
    assert_eq!(resp["result"]["forwarded"], Value::from(true));
    assert_eq!(resp["result"]["server_id"], Value::from(server_id.clone()));
    let sent = from_json(&supervisor.server(&server_id).unwrap()[0]);
    assert_eq!(sent["method"], "textDocument/didChange");
    assert_eq!(sent["params"]["textDocument"]["uri"], "file:///x.rs");
    assert_eq!(sent["params"]["contentChanges"][0]["text"], "fn main() {}");
}

#[test]
fn forward_did_open_and_close_translate_method_names() {
    let mut supervisor = Supervisor::new();
    let server_id = supervisor.next_id();
    supervisor.register(&server_id, Vec::new());
    let open_line = format!(
        "{{\"jsonrpc\":\"2.0\",\"id\":\"1\",\"method\":\"lsp/textDocumentDidOpen\",\"params\":{{\"server_id\":\"{server_id}\",\"text_document\":{{\"uri\":\"file:///a.rs\",\"languageId\":\"rust\",\"version\":1,\"text\":\"x\"}}}}}}"
    );
    let close_line = format!(
        "{{\"jsonrpc\":\"2.0\",\"id\":\"2\",\"method\":\"lsp/textDocumentDidClose\",\"params\":{{\"server_id\":\"{server_id}\",\"text_document\":{{\"uri\":\"file:///a.rs\"}}}}}}"
    );
    let r1 = dispatch_line(&mut supervisor, &open_line);
    let r2 = dispatch_line(&mut supervisor, &close_line);
    assert_eq!(r1["result"]["forwarded"], Value::from(true));
    assert_eq!(r2["result"]["forwarded"], Value::from(true));
    let queue = supervisor.server(&server_id).unwrap();
    let open = from_json(&queue[0]);
    let close = from_json(&queue[1]);
    assert_eq!(open["method"], "textDocument/didOpen");
    assert_eq!(open["params"]["textDocument"]["uri"], "file:///a.rs");
    assert_eq!(open["params"]["textDocument"]["languageId"], "rust");
    assert_eq!(close["method"], "textDocument/didClose");
    assert_eq!(close["params"]["textDocument"]["uri"], "file:///a.rs");
}

fn pumped(server_id: &str, text: &str) -> Value {
    match pump_step(server_id, text) {
        Ok(Some(message)) => from_json(&message),
        other => panic!("diagnostics are passed on, got {other:?}"),
    }
}

#[test]
fn publish_diagnostics_pumps_to_parent_outbound() {
    let diag1 =
        "{\"jsonrpc\": \"2.0\", \"method\": \"textDocument/publishDiagnostics\", \"params\": {\"uri\": \"file:///x.rs\", \"diagnostics\": []}}";
    let v1 = pumped("srv0", diag1);
    assert_eq!(v1["method"], "textDocument/publishDiagnostics");
    assert_eq!(v1["params"]["uri"], "file:///x.rs");
    assert_eq!(v1["params"]["server_id"], "srv0");
    assert_eq!(v1["params"]["diagnostics"], value("[]"));

    let diag2 =
        "{\"jsonrpc\": \"2.0\", \"method\": \"textDocument/publishDiagnostics\", \"params\": {\"uri\": \"file:///y.rs\", \"diagnostics\": [{\"range\": {\"start\":{\"line\":0,\"character\":0},\"end\":{\"line\":0,\"character\":1}}, \"severity\": 2, \"message\": \"unused\"}]}}";
    let v2 = pumped("srv0", diag2);
    assert_eq!(v2["params"]["uri"], "file:///y.rs");
    assert_eq!(v2["params"]["server_id"], "srv0");
    assert_eq!(v2["params"]["diagnostics"][0]["severity"], Value::from(2));

    assert!(matches!(pump_step("srv0", "{\"method\": \"window/logMessage\"}"), Ok(None)));
    assert!(matches!(pump_step("srv0", "{\"id\": 3, \"result\": {}}"), Ok(None)));
    assert!(pump_step("srv0", "not json").is_err());
    assert!(pump_message("srv0", &json("{\"id\": 3}")).is_none());
    let bare = "{\"method\": \"textDocument/publishDiagnostics\"}";
    let v3 = pumped("srv7", bare);
    assert_eq!(v3["params"], value("{\"server_id\": \"srv7\"}"));
}

#[test]
fn only_the_answer_ends_the_handshake() {
    assert_eq!(handshake_capabilities(&json("{\"method\": \"window/logMessage\"}")), None);
    assert_eq!(handshake_capabilities(&json("{\"id\": 2, \"method\": \"ask\"}")), None);
    assert_eq!(handshake_capabilities(&json("{\"id\": \"1\"}")), None);
    assert_eq!(handshake_capabilities(&json("{\"id\": 1}")), Some(json("{}")));
    let frame = |text: &str| handshake_step(&HandshakeEvent::Frame(text.to_owned()));
    assert!(matches!(frame("{\"method\": \"window/logMessage\"}"), HandshakeStep::Read));
    assert!(matches!(frame("{\"id\": 2, \"method\": \"ask\"}"), HandshakeStep::Read));
    assert!(matches!(frame("{\"id\": 1}"), HandshakeStep::Done(c) if c == json("{}")));
    assert!(matches!(handshake_step(&HandshakeEvent::Sent), HandshakeStep::Read));
    assert!(matches!(handshake_frame(Ok(json("{\"id\": 1}"))), HandshakeStep::Done(_)));
    assert_eq!(INIT_TIMEOUT_SECS, 30);
}

fn failure(step: HandshakeStep) -> String {
    match step {
        HandshakeStep::Fail(LspdError::Other(why)) => why,
        _ => panic!("expected a failure"),
    }
}

#[test]
fn handshakes_fail_with_a_reason() {
    let fails = |event: HandshakeEvent| failure(handshake_step(&event));
    assert_eq!(fails(HandshakeEvent::NotSent("gone".into())), "write initialize: gone");
    assert_eq!(fails(HandshakeEvent::NotRead("why".into())), "read frame: why");
    assert_eq!(
        fails(HandshakeEvent::Closed),
        "language server closed stdout before initialize reply"
    );
    assert_eq!(fails(HandshakeEvent::TimedOut), "initialize timed out after 30s");
    let err = serde_json::from_str::<Value>("{oops").expect_err("not JSON");
    assert_eq!(
        fails(HandshakeEvent::Frame("{oops".into())),
        format!("parse frame as JSON: {err}")
    );
    let err = read_text("").expect_err("not JSON");
    let said = err.to_string();
    assert_eq!(failure(handshake_frame(Err(err))), format!("parse frame as JSON: {said}"));
}

#[test]
fn a_real_start_names_the_program() {
    let mut supervisor: Supervisor<()> = Supervisor::new();
    let params = Ok(StartParams { language: "go".into(), root_uri: None });
    match supervisor.start(Json::text("1"), &params, true) {
        StartStep::Spawn(command) => assert_eq!(command.bin, "gopls"),
        other => panic!("expected a spawn, got {other:?}"),
    }
    assert_eq!(supervisor.next_id(), "srv0");
    let reply = from_json(&started_reply(Json::text("1"), "srv0", json("{\"a\": 1}")));
    assert_eq!(reply["result"], value("{\"server_id\": \"srv0\", \"capabilities\": {\"a\": 1}}"));
}

#[test]
fn failures_have_codes_and_texts() {
    let text = |err: LspdError| {
        let v = from_json(&lspd_error_to_json(Json::text("9"), &err));
        assert_eq!(v["id"], "9");
        (v["error"]["code"].as_i64().unwrap(), v["error"]["message"].as_str().unwrap().to_owned())
    };
    assert_eq!(text(LspdError::UnknownLanguage("x".into())), (-32602, "unknown language: x".into()));
    assert_eq!(text(LspdError::UnknownServerId("s".into())), (-32602, "unknown server_id: s".into()));
    assert_eq!(
        text(LspdError::SpawnFailed("ra".into(), "not found on PATH".into())),
        (
            -32001,
            "failed to spawn `ra`: not found on PATH (is it on PATH? hint: `which ra`)".into()
        )
    );
    assert_eq!(text(LspdError::Other("why".into())), (-32603, "why".into()));
    let bad = from_json(&invalid_request("not json"));
    assert_eq!(bad["id"], Value::Null);
    assert_eq!(bad["error"]["code"].as_i64(), Some(-32603));
    assert_eq!(bad["error"]["message"], "invalid JSON-RPC request: not json");
    let gone = from_json(&forwarded_reply(Json::Null, "srv3", false));
    assert_eq!(gone["error"]["message"], "server srv3 writer task is gone");
    assert!(is_blank_line(" \t\r"));
    assert!(!is_blank_line(" x "));
}

#[test]
fn start_and_forward_need_their_parameters() {
    let mut supervisor: Supervisor<Vec<Json>> = Supervisor::new();
    let bad = dispatch_line(&mut supervisor, "{\"id\": 1, \"method\": \"lsp/start\", \"params\": {}}");
    assert_eq!(bad["error"]["code"], Value::from(-32603));
    assert_eq!(
        bad["error"]["message"],
        "invalid lsp/start params: missing field `language`"
    );
    let missing = dispatch_line(
        &mut supervisor,
        "{\"id\": 1, \"method\": \"lsp/textDocumentDidOpen\", \"params\": {}}",
    );
    assert_eq!(missing["error"]["message"], "missing server_id");
    match supervisor.handle_lsp_forward("lsp/other", &json("{\"server_id\": \"srv0\"}")) {
        Err(LspdError::Other(why)) => assert_eq!(why, "unsupported forward method: lsp/other"),
        other => panic!("unexpected {other:?}"),
    }
}

#[test]
fn color_scheme_from_portal_u32_maps_correctly() {
    assert!(matches!(ColorScheme::from_portal_u32(0), ColorScheme::NoPreference));
    assert!(matches!(ColorScheme::from_portal_u32(1), ColorScheme::Dark));
    assert!(matches!(ColorScheme::from_portal_u32(2), ColorScheme::Light));
    assert!(matches!(ColorScheme::from_portal_u32(99), ColorScheme::NoPreference));
}

#[test]
fn color_scheme_default_is_no_preference() {
    assert_eq!(ColorScheme::default(), ColorScheme::NoPreference);
}

#[test]
fn failed_readings_are_no_preference() {
    assert_eq!(ColorScheme::of_reading(None), ColorScheme::NoPreference);
    assert_eq!(ColorScheme::of_reading(Some(1)), ColorScheme::Dark);
    assert!(is_appearance("org.freedesktop.appearance"));
    assert!(!is_appearance("org.gnome.desktop"));
}

#[test]
fn detects_agent_basename() {
    assert_eq!(detect_role_from_argv0("/usr/libexec/codex-desktop/codex-agent"), Role::Agent);
}

#[test]
fn detects_lspd_basename() {
    assert_eq!(detect_role_from_argv0("codex-lspd"), Role::Lspd);
}

#[test]
fn defaults_to_desktop_for_unknown() {
    assert_eq!(detect_role_from_argv0("/path/to/cargo-test-bin"), Role::Desktop);
}

#[test]
fn empty_argv0_defaults_to_desktop() {
    assert_eq!(detect_role_from_argv0(""), Role::Desktop);
}

#[test]
fn force_role_env_agent_wins_over_argv0() {
    assert_eq!(detect_role_with_env("/usr/bin/codex-desktop", Some("agent")), Role::Agent);
}

#[test]
fn force_role_env_desktop_wins_over_argv0() {
    let got = detect_role_with_env("/usr/libexec/codex-desktop/codex-agent", Some("desktop"));
    assert_eq!(got, Role::Desktop);
}

#[test]
fn force_role_env_lspd_recognised() {
    assert_eq!(detect_role_with_env("/usr/bin/codex-desktop", Some("lspd")), Role::Lspd);
}

#[test]
fn force_role_env_unknown_value_falls_through() {
    assert_eq!(detect_role_with_env("codex-agent", Some("garbage")), Role::Agent);
}

#[test]
fn force_role_env_unset_uses_argv0() {
    assert_eq!(detect_role_with_env("/path/to/codex-lspd", None), Role::Lspd);
}

#[test]
fn lib_exposes_role_module() {
    assert_eq!(detect_role_from_argv0("codex-agent"), Role::Agent);
    assert_eq!(Role::DESKTOP_BIN, "codex-desktop");
    assert_eq!(Role::AGENT_BIN, "codex-agent");
    assert_eq!(Role::LSPD_BIN, "codex-lspd");
    assert_eq!(FORCE_ROLE_ENV, "CODEX_DESKTOP_FORCE_ROLE");
}

#[test]
fn only_text_is_sent() {
    assert_eq!(composed_message("  hi there\n"), Some("hi there".to_owned()));
    assert_eq!(composed_message(" \n\t "), None);
    assert_eq!(composed_message(""), None);
    assert_eq!(message_class("user"), "codex-msg-user");
}
