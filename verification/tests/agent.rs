use codex_desktop::agent::capabilities::BackendCapabilities;
use codex_desktop::agent::client::{
    build_request, dispatch_by_id, dispatch_incoming, interrupt_params, wire_method, AgentClient,
    Call, ClaudeBackend, CodexBackend, Dialect, Dispatch, Outcome,
};
use codex_desktop::agent::envelope::{
    IncomingServerNotification, KnownVariantRegistry, UnknownNotification,
};
use codex_desktop::agent::types::{
    BackendId, ClientInfo, InitializeParams, InitializeResponse, ServerInfo, Submission,
    SubmissionId, ThreadId, TurnId,
};
use codex_desktop::json::Json;
use codex_desktop::json_text::{from_value, to_value};
use codex_desktop::keyed::KeyedMap;
use serde_json::Value;

fn to_json(v: &Value) -> Json {
    from_value(v.clone())
}

fn from_json(j: &Json) -> Value {
    to_value(j)
}

fn value(text: &str) -> Value {
    serde_json::from_str(text).expect("valid JSON")
}

fn json(text: &str) -> Json {
    to_json(&value(text))
}

fn caps(methods: &[&str], notifs: &[&str]) -> BackendCapabilities {
    BackendCapabilities {
        protocol_version: Some("1".into()),
        supported_methods: methods.iter().map(|s| (*s).to_owned()).collect(),
        supported_notifications: notifs.iter().map(|s| (*s).to_owned()).collect(),
    }
}

#[test]
fn intersect_returns_overlap() {
    let a = caps(&["a", "b", "c"], &["x", "y"]);
    let b = caps(&["b", "c", "d"], &["y", "z"]);
    let got = a.intersect(&b);
    assert_eq!(got.protocol_version.as_deref(), Some("1"));
    assert_eq!(got.supported_methods, vec!["b".to_owned(), "c".to_owned()]);
    assert_eq!(got.supported_notifications, vec!["y".to_owned()]);
}

#[test]
fn intersect_empty_when_disjoint() {
    let a = caps(&["a"], &["x"]);
    let b = caps(&["b"], &["y"]);
    let got = a.intersect(&b);
    assert!(got.supported_methods.is_empty());
    assert!(got.supported_notifications.is_empty());
}

#[test]
fn supports_method_honours_list() {
    let c = caps(&["alpha", "beta"], &[]);
    assert!(c.supports_method("alpha"));
    assert!(c.supports_method("beta"));
    assert!(!c.supports_method("gamma"));
}

#[test]
fn supports_notification_honours_list() {
    let c = caps(&[], &["thread/started", "agent/messageDelta"]);
    assert!(c.supports_notification("thread/started"));
    assert!(!c.supports_notification("thread/finished"));
}

#[test]
fn default_is_empty() {
    let c = BackendCapabilities::default();
    assert!(c.protocol_version.is_none());
    assert!(c.supported_methods.is_empty());
    assert!(c.supported_notifications.is_empty());
}

#[test]
fn intersect_keeps_the_order_and_the_version_of_the_first() {
    let a = BackendCapabilities {
        protocol_version: Some("2".into()),
        supported_methods: vec!["c".into(), "a".into(), "b".into()],
        supported_notifications: vec![],
    };
    let b = caps(&["b", "c"], &["y"]);
    let got = a.intersect(&b);
    assert_eq!(got.supported_methods, vec!["c".to_owned(), "b".to_owned()]);
    assert!(got.supported_notifications.is_empty());
    let again = a.intersect(&a);
    assert_eq!(again.supported_methods, a.supported_methods);
}

fn registry() -> KnownVariantRegistry {
    KnownVariantRegistry::new().with_methods(["thread/started", "agent/messageDelta"])
}

#[test]
fn classify_known_method_marks_recognised_as() {
    let r = registry();
    let n = IncomingServerNotification::classify(
        "thread/started",
        json("{\"thread_id\": \"abc\"}"),
        &r,
    );
    match n {
        IncomingServerNotification::Known(k) => {
            assert_eq!(k.method, "thread/started");
            assert_eq!(k.recognised_as.as_deref(), Some("thread/started"));
            assert_eq!(from_json(&k.params), value("{\"thread_id\": \"abc\"}"));
        }
        IncomingServerNotification::Unknown(_) => panic!("expected Known"),
    }
}

#[test]
fn classify_unknown_method_falls_back() {
    let r = registry();
    let n =
        IncomingServerNotification::classify("future/methodWeDoNotKnow", json("{\"x\": 1}"), &r);
    assert!(n.is_unknown());
    assert_eq!(n.method(), "future/methodWeDoNotKnow");
    assert_eq!(from_json(n.params()), value("{\"x\": 1}"));
}

#[test]
fn registry_helpers() {
    let r = KnownVariantRegistry::new();
    assert!(r.is_empty());
    assert_eq!(r.len(), 0);

    let r = r.with_method("a").with_methods(["b", "c"]);
    assert_eq!(r.len(), 3);
    assert!(r.contains("a"));
    assert!(r.contains("b"));
    assert!(r.contains("c"));
    assert!(!r.contains("d"));
    assert_eq!(r.canonical("a"), Some("a"));
    assert_eq!(r.canonical("z"), None);
}

#[test]
fn a_method_is_registered_once() {
    let r = KnownVariantRegistry::default().with_methods(["a", "a", "b"]).with_method("b");
    assert_eq!(r.len(), 2);
    assert!(!r.is_empty());
}

fn waiting(id: &str) -> KeyedMap<u32> {
    let mut pending = KeyedMap::new();
    pending.insert(id.to_owned(), 7u32);
    pending
}

fn expect_accepted(got: Dispatch<u32>, result: &str) {
    match got {
        Dispatch::Deliver { waiter, outcome: Outcome::Accepted(v) } => {
            assert_eq!(waiter, 7);
            assert_eq!(from_json(&v), value(result));
        }
        _ => panic!("expected an accepted answer"),
    }
}

fn expect_rejected(got: Dispatch<u32>) {
    match got {
        Dispatch::Deliver { waiter, outcome: Outcome::Rejected(err) } => {
            assert_eq!(waiter, 7);
            assert!(err.contains("bad"), "msg = {err}");
            assert_eq!(err, "{\"code\":-32600,\"message\":\"bad\"}");
        }
        _ => panic!("expected Rejected"),
    }
}

fn expect_notification(got: Dispatch<u32>) -> IncomingServerNotification {
    match got {
        Dispatch::Notify(n) => n,
        _ => panic!("expected a notification"),
    }
}

#[test]
fn codex_dispatch_routes_response_to_pending_oneshot() {
    let mut pending = waiting("r1");
    let value = json("{\"jsonrpc\": \"2.0\", \"id\": \"r1\", \"result\": {\"ok\": true}}");
    let got = dispatch_incoming(&value, &mut pending, &KnownVariantRegistry::new());
    expect_accepted(got, "{\"ok\": true}");
    assert!(pending.is_empty());
}

#[test]
fn codex_dispatch_routes_error_response_as_rejected() {
    let mut pending = waiting("r1");
    let value = json(
        "{\"jsonrpc\": \"2.0\", \"id\": \"r1\", \"error\": {\"code\": -32600, \"message\": \"bad\"}}",
    );
    expect_rejected(dispatch_incoming(&value, &mut pending, &KnownVariantRegistry::new()));
}

#[test]
fn dispatch_routes_unknown_notification_to_broadcast() {
    let mut pending: KeyedMap<u32> = KeyedMap::new();
    let value_ = json(
        "{\"jsonrpc\": \"2.0\", \"method\": \"agent/foo\", \"params\": {\"hello\": \"world\"}}",
    );
    let got =
        expect_notification(dispatch_incoming(&value_, &mut pending, &KnownVariantRegistry::new()));
    assert_eq!(got.method(), "agent/foo");
    assert_eq!(from_json(got.params()), value("{\"hello\": \"world\"}"));
    assert!(got.is_unknown());
}

#[test]
fn codex_dispatch_classifies_known_notification_against_registry() {
    let mut pending: KeyedMap<u32> = KeyedMap::new();
    let value = json(
        "{\"jsonrpc\": \"2.0\", \"method\": \"agent/message_delta\", \"params\": {\"delta\": \"hi\"}}",
    );
    let registry = CodexBackend::default_registry();
    let got = expect_notification(dispatch_incoming(&value, &mut pending, &registry));
    assert_eq!(got.method(), "agent/message_delta");
    assert!(!got.is_unknown(), "agent/message_delta must classify as Known");
}

#[test]
fn default_registry_covers_agent_role_published_methods() {
    let r = CodexBackend::default_registry();
    assert!(r.contains("agent/message_delta"));
    assert!(r.contains("agent/turn_completed"));
}

#[test]
fn dispatch_handles_response_with_method_field() {
    let mut pending = waiting("r1");
    let value = json(
        "{\"jsonrpc\": \"2.0\", \"id\": \"r1\", \"method\": \"submit\", \"result\": {\"accepted\": true}}",
    );
    let got = dispatch_incoming(&value, &mut pending, &KnownVariantRegistry::new());
    expect_accepted(got, "{\"accepted\": true}");
}

#[test]
fn a_request_of_the_server_is_shown_as_a_notification() {
    let mut pending = waiting("r1");
    let value = json("{\"id\": \"s9\", \"method\": \"ask\", \"params\": 1}");
    let got =
        expect_notification(dispatch_incoming(&value, &mut pending, &KnownVariantRegistry::new()));
    assert_eq!(got.method(), "ask");
    assert!(pending.contains_key("r1"));
    match dispatch_by_id(&value, &mut pending) {
        Dispatch::UnknownId(id) => assert_eq!(id, "s9"),
        _ => panic!("expected an unknown id"),
    }
}

#[test]
fn codex_dispatch_ignores_malformed_message() {
    let mut pending: KeyedMap<u32> = KeyedMap::new();
    let got = dispatch_incoming(
        &json("{\"junk\": true}"),
        &mut pending,
        &KnownVariantRegistry::new(),
    );
    assert!(matches!(got, Dispatch::Ignored));
}

#[test]
fn process_dispatch_routes_response_to_pending_oneshot() {
    let mut pending = waiting("r1");
    let value = json("{\"jsonrpc\": \"2.0\", \"id\": \"r1\", \"result\": {\"ok\": true}}");
    expect_accepted(dispatch_by_id(&value, &mut pending), "{\"ok\": true}");
    assert!(pending.is_empty());
}

#[test]
fn process_dispatch_routes_error_response_as_rejected() {
    let mut pending = waiting("r1");
    let value = json(
        "{\"jsonrpc\": \"2.0\", \"id\": \"r1\", \"error\": {\"code\": -32600, \"message\": \"bad\"}}",
    );
    expect_rejected(dispatch_by_id(&value, &mut pending));
}

#[test]
fn dispatch_unknown_id_is_logged_not_fatal() {
    let mut pending: KeyedMap<u32> = KeyedMap::new();
    let value = json("{\"jsonrpc\": \"2.0\", \"id\": \"r-unknown\", \"result\": 42}");
    match dispatch_by_id(&value, &mut pending) {
        Dispatch::UnknownId(id) => assert_eq!(id, "r-unknown"),
        _ => panic!("expected an unknown id"),
    }
}

#[test]
fn dispatch_routes_notification_to_broadcast() {
    let mut pending: KeyedMap<u32> = KeyedMap::new();
    let value_ = json(
        "{\"jsonrpc\": \"2.0\", \"method\": \"agent/foo\", \"params\": {\"hello\": \"world\"}}",
    );
    let got = expect_notification(dispatch_by_id(&value_, &mut pending));
    assert_eq!(got.method(), "agent/foo");
    assert_eq!(from_json(got.params()), value("{\"hello\": \"world\"}"));
    assert!(got.is_unknown());
}

#[test]
fn dispatch_handles_notification_with_no_params() {
    let mut pending: KeyedMap<u32> = KeyedMap::new();
    let value = json("{\"jsonrpc\": \"2.0\", \"method\": \"agent/ping\"}");
    let got = expect_notification(dispatch_by_id(&value, &mut pending));
    assert_eq!(got.method(), "agent/ping");
    assert!(got.params().is_null());
}

#[test]
fn process_dispatch_ignores_malformed_message() {
    let mut pending: KeyedMap<u32> = KeyedMap::new();
    assert!(matches!(dispatch_by_id(&json("{\"junk\": true}"), &mut pending), Dispatch::Ignored));
}

#[test]
fn default_registry_is_namespaced() {
    let r = ClaudeBackend::default_registry("other/");
    for m in ["other/message_delta", "other/turn_completed", "other/content_block_delta"] {
        assert!(r.contains(m), "default registry missing {m}");
    }
    assert_eq!(r.len(), 3);
    assert!(!r.contains("agent/message_delta"));
    assert!(!r.contains("agent/turn_completed"));
}

#[test]
fn namespaced_notification_is_recognised() {
    let mut pending: KeyedMap<u32> = KeyedMap::new();
    let registry = ClaudeBackend::default_registry("other/");
    let value_ = json(
        "{\"jsonrpc\": \"2.0\", \"method\": \"other/message_delta\", \"params\": {\"delta\": \"hello\"}}",
    );
    let got = expect_notification(dispatch_incoming(&value_, &mut pending, &registry));
    assert_eq!(got.method(), "other/message_delta");
    assert!(!got.is_unknown());
    assert_eq!(from_json(got.params()), value("{\"delta\": \"hello\"}"));
}

#[test]
fn namespaced_notification_falls_back() {
    let mut pending: KeyedMap<u32> = KeyedMap::new();
    let value = json(
        "{\"jsonrpc\": \"2.0\", \"method\": \"other/some_future_event\", \"params\": {\"x\": 1}}",
    );
    let got =
        expect_notification(dispatch_incoming(&value, &mut pending, &KnownVariantRegistry::new()));
    assert_eq!(got.method(), "other/some_future_event");
    assert!(got.is_unknown());
}

#[test]
fn lib_dispatch_routes_response_to_pending_oneshot() {
    let mut pending = waiting("c1");
    let value = json("{\"jsonrpc\": \"2.0\", \"id\": \"c1\", \"result\": {\"ok\": true}}");
    let got = dispatch_incoming(&value, &mut pending, &KnownVariantRegistry::new());
    expect_accepted(got, "{\"ok\": true}");
    assert!(pending.is_empty());
}

#[test]
fn lib_dispatch_routes_error_response_as_rejected() {
    let mut pending = waiting("c1");
    let value = json(
        "{\"jsonrpc\": \"2.0\", \"id\": \"c1\", \"error\": {\"code\": -32600, \"message\": \"bad\"}}",
    );
    expect_rejected(dispatch_incoming(&value, &mut pending, &KnownVariantRegistry::new()));
}

#[test]
fn requests_are_numbered_and_namespaced() {
    let mut client: AgentClient<u32> =
        AgentClient::new(Dialect::Claude, "other/", ClaudeBackend::default_registry("other/"));
    let params = json("{\"thread_id\": \"default\", \"payload\": {\"text\": \"hi\"}}");
    let first = client.request(Call::Submit, params, 1).expect("open");
    assert_eq!(
        from_json(&first),
        value(
            "{\"jsonrpc\": \"2.0\", \"id\": \"c1\", \"method\": \"other/submit\", \"params\": {\"thread_id\": \"default\", \"payload\": {\"text\": \"hi\"}}}"
        )
    );
    let second = client.request(Call::Interrupt, interrupt_params("t-9"), 2).expect("open");
    assert_eq!(second.get_str("id"), Some("c2"));
    assert_eq!(second.get_str("method"), Some("other/interrupt"));
    assert_eq!(from_json(&second)["params"], value("{\"turn_id\": \"t-9\"}"));
    assert_eq!(client.issued(), 2);
    match client.dispatch(&json("{\"id\": \"c2\", \"result\": null}")) {
        Dispatch::Deliver { waiter, outcome } => {
            assert_eq!(waiter, 2);
            assert_eq!(outcome, Outcome::Accepted(Json::Null));
        }
        _ => panic!("expected an answer"),
    }
    match client.dispatch(&json("{\"id\": \"c2\", \"result\": null}")) {
        Dispatch::UnknownId(id) => assert_eq!(id, "c2"),
        _ => panic!("answered twice"),
    }
    assert!(client.registry().contains("other/message_delta"));
}

#[test]
fn plain_requests_have_plain_names() {
    let mut client: AgentClient<()> =
        AgentClient::new(Dialect::Codex, "", CodexBackend::default_registry());
    let req = client.request(Call::Initialize, Json::Null, ()).expect("open");
    assert_eq!(req.get_str("id"), Some("r1"));
    assert_eq!(req.get_str("method"), Some("initialize"));
    assert_eq!(wire_method("", Call::Shutdown), "shutdown");
    let built = build_request("r7", "submit", json("{}"));
    assert_eq!(
        from_json(&built),
        value("{\"jsonrpc\": \"2.0\", \"id\": \"r7\", \"method\": \"submit\", \"params\": {}}")
    );
}

#[test]
fn processes_answer_by_id_alone() {
    let mut client: AgentClient<u32> =
        AgentClient::new(Dialect::Process, "", KnownVariantRegistry::new());
    let _ = client.request(Call::Submit, Json::Null, 5);
    match client.dispatch(&json("{\"id\": \"x\", \"method\": \"m\"}")) {
        Dispatch::UnknownId(id) => assert_eq!(id, "x"),
        _ => panic!("expected an unknown id"),
    }
}

#[test]
fn initialize_populates_capabilities() {
    let mut client: AgentClient<u32> =
        AgentClient::new(Dialect::Claude, "other/", ClaudeBackend::default_registry("other/"));
    assert!(client.capabilities().protocol_version.is_none());
    let req = client.request(Call::Initialize, Json::Null, 7).expect("open");
    assert_eq!(req.get_str("method"), Some("other/initialize"));
    let answer = format!(
        "{{\"jsonrpc\": \"2.0\", \"id\": \"{}\", \"result\": {{\"protocol_version\": \"pr-x\"}}}}",
        req.get_str("id").expect("an id")
    );
    expect_accepted(client.dispatch(&json(&answer)), "{\"protocol_version\": \"pr-x\"}");
    let resp = InitializeResponse {
        server_info: ServerInfo { name: "code-mock".into(), version: "0.0.0".into() },
        protocol_version: Some("pr-x".into()),
        supported_methods: vec!["other/initialize".into(), "other/submit".into()],
        supported_notifications: vec!["other/message_delta".into()],
    };
    client.initialized(&resp);
    assert_eq!(client.capabilities().protocol_version.as_deref(), Some("pr-x"));
    assert_eq!(
        client.capabilities().supported_methods,
        vec!["other/initialize".to_string(), "other/submit".to_string()]
    );
    assert_eq!(
        client.capabilities().supported_notifications,
        vec!["other/message_delta".to_string()]
    );
    assert!(client.capabilities().supports_notification("other/message_delta"));
}

#[test]
fn empty_params_default_to_null() {
    let r = registry();
    let n = IncomingServerNotification::classify("thread/started", Json::Null, &r);
    assert_eq!(n.params(), &Json::Null);

    let wire = json("{\"method\": \"future/sansParams\"}");
    let mut pending: KeyedMap<u32> = KeyedMap::new();
    let parsed = expect_notification(dispatch_incoming(&wire, &mut pending, &r));
    assert_eq!(parsed.method(), "future/sansParams");
    assert_eq!(parsed.params(), &Json::Null);
}

#[test]
fn ids_are_their_text() {
    assert_eq!(ThreadId::from("t").as_str(), "t");
    assert_eq!(TurnId::from(String::from("u")).as_str(), "u");
    assert_eq!(SubmissionId::from("s").as_str(), "s");
    assert_eq!(BackendId("codex").as_str(), "codex");
    let sub = Submission {
        id: SubmissionId::from("s1"),
        thread_id: ThreadId::from("default"),
        payload: json("{\"text\": \"hi\"}"),
    };
    assert_eq!(sub.payload.get_str("text"), Some("hi"));
    let params = InitializeParams {
        client_info: ClientInfo { name: "test".into(), version: "0".into() },
        protocol_version: None,
        supported_methods: Vec::new(),
    };
    assert_eq!(params.client_info.name, "test");
}

#[test]
fn unknown_notifications_keep_what_they_hold() {
    let n = IncomingServerNotification::Unknown(UnknownNotification {
        method: "future/method".into(),
        params: json("{\"a\": [1, 2, 3]}"),
    });
    assert_eq!(n.method(), "future/method");
    assert_eq!(from_json(n.params()), value("{\"a\": [1, 2, 3]}"));
}

#[test]
fn maps_hold_one_value_per_key() {
    let mut m: KeyedMap<u8> = KeyedMap::new();
    assert!(m.is_empty());
    m.insert("a".into(), 1);
    m.insert("b".into(), 2);
    m.insert("a".into(), 3);
    assert_eq!(m.get("a"), Some(&3));
    assert_eq!(m.remove("a"), Some(3));
    assert_eq!(m.remove("a"), None);
    assert!(!m.contains_key("a"));
    assert_eq!(m.get("b"), Some(&2));
}

#[test]
fn requests_fail_once_the_conversation_is_over() {
    let mut client: AgentClient<u32> =
        AgentClient::new(Dialect::Codex, "", CodexBackend::default_registry());
    assert!(client.request(Call::Submit, Json::Null, 7).is_some());
    assert!(client.request(Call::Submit, Json::Null, 8).is_some());
    let mut waiters = client.close();
    waiters.sort_unstable();
    assert_eq!(waiters, vec![7, 8]);
    assert!(client.request(Call::Submit, Json::Null, 9).is_none());
    assert_eq!(client.issued(), 2);
    assert!(client.close().is_empty());
    match client.dispatch(&json("{\"id\": \"r1\", \"result\": null}")) {
        Dispatch::UnknownId(id) => assert_eq!(id, "r1"),
        _ => panic!("nobody waits any more"),
    }
}

#[test]
fn adding_a_method_twice_is_adding_it_once() {
    let once = KnownVariantRegistry::new().with_method("a").with_method("b");
    let twice = once.clone().with_method("a");
    assert_eq!(once.len(), 2);
    assert_eq!(twice.len(), 2);
    assert_eq!(twice.with_method("c").len(), 3);
}
