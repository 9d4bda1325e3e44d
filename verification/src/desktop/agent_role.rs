//! The agent role: a JSON-RPC server that answers a small set of methods.
//!
//! `initialize` says what the server can do, `submit` is acknowledged and
//! echoed back as a streamed turn, `interrupt` and `shutdown` are
//! acknowledged. Anything else is answered with "method not found".
use crate::json::{
    lookup, object1, object2, object3, object4, text_array, Json, JsonNumber, JsonView,
};
use crate::jsonrpc::JsonRpcMessage;
use crate::text::{concat_text, same_text};
use vstd::prelude::*;

verus! {

/// The id of a message as it is given back: null where there is none.
pub open spec fn echoed_id(value: JsonView) -> JsonView {
    match value.get("id"@) {
        Some(id) => id,
        None => JsonView::Null,
    }
}

/// A response: `field` is `result` or `error`.
pub open spec fn response_view(id: JsonView, field: Seq<char>, content: JsonView) -> JsonView {
    JsonView::Object(seq![("jsonrpc"@, JsonView::Str("2.0"@)), ("id"@, id), (field, content)])
}

/// A notification.
pub open spec fn notification_view(method: Seq<char>, params: JsonView) -> JsonView {
    JsonView::Object(
        seq![
            ("jsonrpc"@, JsonView::Str("2.0"@)),
            ("method"@, JsonView::Str(method)),
            ("params"@, params),
        ],
    )
}

/// What the server says of itself.
pub open spec fn initialize_result() -> JsonView {
    JsonView::Object(
        seq![
            (
                "server_info"@,
                JsonView::Object(
                    seq![
                        ("name"@, JsonView::Str("codex-agent-stub"@)),
                        ("version"@, JsonView::Str("0.1.0"@)),
                    ],
                ),
            ),
            ("protocol_version"@, JsonView::Str("0.0.0-pr-b"@)),
            (
                "supported_methods"@,
                JsonView::Array(
                    seq![
                        JsonView::Str("initialize"@),
                        JsonView::Str("submit"@),
                        JsonView::Str("interrupt"@),
                        JsonView::Str("shutdown"@),
                    ],
                ),
            ),
            (
                "supported_notifications"@,
                JsonView::Array(
                    seq![
                        JsonView::Str("agent/message_delta"@),
                        JsonView::Str("agent/turn_completed"@),
                    ],
                ),
            ),
        ],
    )
}

/// The text of a submission, where it carries one.
pub open spec fn submitted_text(value: JsonView) -> Option<Seq<char>> {
    match value.get("params"@) {
        Some(params) => match params.get("payload"@) {
            Some(payload) => payload.get_str("text"@),
            None => None,
        },
        None => None,
    }
}

/// The text that a submission is echoed with.
pub open spec fn echo_text(value: JsonView) -> Seq<char> {
    match submitted_text(value) {
        Some(text) => text,
        None => "(no payload.text)"@,
    }
}

/// The messages that answer a submission.
pub open spec fn submit_replies(value: JsonView) -> Seq<JsonView> {
    seq![
        response_view(
            echoed_id(value),
            "result"@,
            JsonView::Object(seq![("accepted"@, JsonView::Bool(true))]),
        ),
        notification_view(
            "agent/message_delta"@,
            JsonView::Object(seq![("delta"@, JsonView::Str(echo_text(value)))]),
        ),
        notification_view(
            "agent/turn_completed"@,
            JsonView::Object(seq![("stop_reason"@, JsonView::Str("end_turn"@))]),
        ),
    ]
}

/// An acknowledgement.
pub open spec fn ack_reply(value: JsonView, note: Seq<char>) -> JsonView {
    response_view(
        echoed_id(value),
        "result"@,
        JsonView::Object(seq![("ok"@, JsonView::Bool(true)), ("note"@, JsonView::Str(note))]),
    )
}

/// An error object.
pub open spec fn error_view(code: i64, message: Seq<char>) -> JsonView {
    JsonView::Object(
        seq![
            ("code"@, JsonView::Number(JsonNumber::of_int(code as int))),
            ("message"@, JsonView::Str(message)),
        ],
    )
}

/// The messages that the server sends for a message.
pub open spec fn agent_replies(value: JsonView) -> Seq<JsonView> {
    match value.get_str("method"@) {
        Some(method) => if method == "initialize"@ {
            seq![response_view(echoed_id(value), "result"@, initialize_result())]
        } else if method == "submit"@ {
            submit_replies(value)
        } else if method == "interrupt"@ {
            seq![ack_reply(value, "interrupted"@)]
        } else if method == "shutdown"@ {
            seq![ack_reply(value, "goodbye"@)]
        } else {
            seq![
                response_view(
                    echoed_id(value),
                    "error"@,
                    error_view((-32601) as i64, "method not found: "@ + method),
                ),
            ]
        },
        None => Seq::empty(),
    }
}

/// Whether the server goes on after a message.
pub open spec fn agent_goes_on(value: JsonView) -> bool {
    value.get_str("method"@) != Some("shutdown"@)
}

/// The id of a message as it is given back.
pub fn reply_id(value: &Json) -> (r: Json)
    ensures
        r@ == echoed_id(value@),
{
    match value.get("id") {
        Some(id) => id.clone(),
        None => Json::Null,
    }
}

/// A response.
pub fn response(id: Json, field: &str, content: Json) -> (r: Json)
    ensures
        r@ == response_view(id@, field@, content@),
{
    object3("jsonrpc", Json::text("2.0"), "id", id, field, content)
}

/// A notification.
pub fn notification(method: &str, params: Json) -> (r: Json)
    ensures
        r@ == notification_view(method@, params@),
{
    object3("jsonrpc", Json::text("2.0"), "method", Json::text(method), "params", params)
}

/// An error object.
pub fn error_object(code: i64, message: &str) -> (r: Json)
    ensures
        r@ == error_view(code, message@),
{
    object2(
        "code",
        Json::integer(code),
        "message",
        Json::text(message),
    )
}

fn handle_initialize(id: Json) -> (r: Json)
    ensures
        r@ == response_view(id@, "result"@, initialize_result()),
{
    let info = object2("name", Json::text("codex-agent-stub"), "version", Json::text("0.1.0"));
    let methods = text_array(["initialize", "submit", "interrupt", "shutdown"]);
    let notifications = text_array(["agent/message_delta", "agent/turn_completed"]);
    proof {
        assert(methods@->Array_0 =~= seq![
            JsonView::Str("initialize"@),
            JsonView::Str("submit"@),
            JsonView::Str("interrupt"@),
            JsonView::Str("shutdown"@),
        ]);
        assert(notifications@->Array_0 =~= seq![
            JsonView::Str("agent/message_delta"@),
            JsonView::Str("agent/turn_completed"@),
        ]);
    }
    let result = object4(
        "server_info",
        info,
        "protocol_version",
        Json::text("0.0.0-pr-b"),
        "supported_methods",
        methods,
        "supported_notifications",
        notifications,
    );
    response(id, "result", result)
}

/// The text of a submission.
fn payload_text(value: &Json) -> (r: Option<&str>)
    ensures
        crate::json::reads(r, submitted_text(value@)),
{
    match value.get("params") {
        Some(params) => match params.get("payload") {
            Some(payload) => payload.get_str("text"),
            None => None,
        },
        None => None,
    }
}

/// The contents of a run of messages.
pub open spec fn message_views(s: Seq<Json>) -> Seq<JsonView> {
    Seq::new(s.len(), |i: int| s[i]@)
}

fn handle_submit(id: Json, value: &Json) -> (r: Vec<Json>)
    requires
        id@ == echoed_id(value@),
    ensures
        message_views(r@) == submit_replies(value@),
{
    let text = match payload_text(value) {
        Some(text) => text,
        None => "(no payload.text)",
    };
    let ack = response(id, "result", object1("accepted", Json::Bool(true)));
    let delta = notification("agent/message_delta", object1("delta", Json::text(text)));
    let done = notification(
        "agent/turn_completed",
        object1("stop_reason", Json::text("end_turn")),
    );
    let mut out: Vec<Json> = Vec::new();
    out.push(ack);
    out.push(delta);
    out.push(done);
    assert(message_views(out@) =~= submit_replies(value@));
    out
}

fn handle_ack(id: Json, note: &str) -> (r: Json)
    ensures
        r@ == response_view(
            id@,
            "result"@,
            JsonView::Object(seq![("ok"@, JsonView::Bool(true)), ("note"@, JsonView::Str(note@))]),
        ),
{
    response(id, "result", object2("ok", Json::Bool(true), "note", Json::text(note)))
}

/// One message to send.
fn just(message: Json) -> (r: Vec<Json>)
    ensures
        message_views(r@) == seq![message@],
{
    let ghost view = message@;
    let mut out: Vec<Json> = Vec::new();
    out.push(message);
    assert(message_views(out@) =~= seq![view]);
    out
}

/// Answers one message: the messages to send, and whether to go on.
pub fn process_message(msg: &JsonRpcMessage) -> (r: (Vec<Json>, bool))
    ensures
        message_views(r.0@) == agent_replies(msg.0@),
        r.1 == agent_goes_on(msg.0@),
{
    let value = msg.as_value();
    let method = match value.get_str("method") {
        Some(method) => method,
        None => {
            let out: Vec<Json> = Vec::new();
            assert(message_views(out@) =~= Seq::<JsonView>::empty());
            return (out, true);
        },
    };
    let id = reply_id(value);
    proof {
        lemma_method_names_differ();
    }
    if same_text(method, "initialize") {
        (just(handle_initialize(id)), true)
    } else if same_text(method, "submit") {
        (handle_submit(id, value), true)
    } else if same_text(method, "interrupt") {
        (just(handle_ack(id, "interrupted")), true)
    } else if same_text(method, "shutdown") {
        (just(handle_ack(id, "goodbye")), false)
    } else {
        let text = concat_text("method not found: ", method);
        (just(response(id, "error", error_object(-32601, text.as_str()))), true)
    }
}

proof fn lemma_method_names_differ()
    ensures
        "initialize"@ != "shutdown"@,
        "submit"@ != "shutdown"@,
        "interrupt"@ != "shutdown"@,
{
    reveal_strlit("initialize");
    reveal_strlit("submit");
    reveal_strlit("interrupt");
    reveal_strlit("shutdown");
    assert("submit"@[0] == 's' && "submit"@[1] == 'u');
    assert("shutdown"@[1] == 'h');
    assert("initialize"@[0] == 'i');
    assert("interrupt"@[0] == 'i');
    assert("shutdown"@[0] == 's');
}

/// Every message with a method is answered, the first answer carries its id,
/// and what follows carries none.
pub proof fn law_one_response_per_request(value: JsonView)
    requires
        value.get_str("method"@) is Some,
    ensures
        agent_replies(value).len() >= 1,
        agent_replies(value)[0].get("id"@) == Some(echoed_id(value)),
        forall|i: int|
            1 <= i < agent_replies(value).len() ==> (#[trigger] agent_replies(value)[i]).get(
                "id"@,
            ) is None,
{
    reveal_with_fuel(lookup, 4);
    reveal_strlit("jsonrpc");
    reveal_strlit("id");
    reveal_strlit("method");
    reveal_strlit("params");
    assert("jsonrpc"@.len() != "id"@.len());
    assert("method"@.len() != "id"@.len());
    assert("params"@.len() != "id"@.len());
    let replies = agent_replies(value);
    assert(replies[0]->Object_0.drop_first()[0].0 == "id"@);
    if value.get_str("method"@) == Some("submit"@) {
        reveal_strlit("submit");
        reveal_strlit("initialize");
        assert("submit"@.len() != "initialize"@.len());
        assert forall|i: int| 1 <= i < replies.len() implies (#[trigger] replies[i]).get("id"@) is None by {
            let fields = replies[i]->Object_0;
            assert(fields.drop_first()[0] == fields[1]);
            assert(fields.drop_first().drop_first()[0] == fields[2]);
            assert(fields.drop_first().drop_first().drop_first().len() == 0);
        }
    }
}

} // verus!
