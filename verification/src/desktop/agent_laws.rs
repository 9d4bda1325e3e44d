//! What the messages of the agent role hold, and what they lead to.
use crate::desktop::agent_bridge::{
    event_of, law_delta_is_told, prompt_actions, ActionView, EventContent,
};
use crate::desktop::agent_role::{
    agent_goes_on, agent_replies, echoed_id, error_view, initialize_result, notification_view,
    response_view,
};
use crate::json::{has_field, lacks_field, law_get, stands_first, JsonNumber, JsonView};
use vstd::prelude::*;

verus! {

/// The names of the fields of messages differ.
pub(crate) proof fn lemma_field_names()
    ensures
        "jsonrpc"@ != "id"@,
        "jsonrpc"@ != "method"@,
        "jsonrpc"@ != "params"@,
        "jsonrpc"@ != "result"@,
        "jsonrpc"@ != "error"@,
        "id"@ != "method"@,
        "id"@ != "params"@,
        "id"@ != "result"@,
        "id"@ != "error"@,
        "method"@ != "params"@,
        "method"@ != "result"@,
        "method"@ != "error"@,
        "params"@ != "result"@,
        "params"@ != "error"@,
        "result"@ != "error"@,
        "code"@ != "message"@,
        "ok"@ != "note"@,
{
    reveal_strlit("jsonrpc");
    reveal_strlit("id");
    reveal_strlit("method");
    reveal_strlit("params");
    reveal_strlit("result");
    reveal_strlit("error");
    reveal_strlit("code");
    reveal_strlit("message");
    reveal_strlit("ok");
    reveal_strlit("note");
    assert("jsonrpc"@.len() == 7 && "id"@.len() == 2 && "error"@.len() == 5);
    assert("method"@.len() == 6 && "params"@.len() == 6 && "result"@.len() == 6);
    assert("method"@[0] == 'm' && "params"@[0] == 'p' && "result"@[0] == 'r');
    assert("code"@.len() != "message"@.len());
    assert("ok"@.len() != "note"@.len());
}

/// A response names the protocol, the request that it answers and what it
/// answers, and nothing else: no method, and not both a result and an error.
pub proof fn law_response_shape(id: JsonView, content: JsonView)
    ensures
        has_field(response_view(id, "result"@, content), "jsonrpc"@, JsonView::Str("2.0"@)),
        has_field(response_view(id, "result"@, content), "id"@, id),
        has_field(response_view(id, "result"@, content), "result"@, content),
        lacks_field(response_view(id, "result"@, content), "error"@),
        lacks_field(response_view(id, "result"@, content), "method"@),
        has_field(response_view(id, "error"@, content), "jsonrpc"@, JsonView::Str("2.0"@)),
        has_field(response_view(id, "error"@, content), "id"@, id),
        has_field(response_view(id, "error"@, content), "error"@, content),
        lacks_field(response_view(id, "error"@, content), "result"@),
        lacks_field(response_view(id, "error"@, content), "method"@),
{
    lemma_field_names();
    let good = response_view(id, "result"@, content)->Object_0;
    let bad = response_view(id, "error"@, content)->Object_0;
    assert(stands_first(good, "jsonrpc"@, 0));
    assert(stands_first(good, "id"@, 1));
    assert(stands_first(good, "result"@, 2));
    assert(stands_first(bad, "jsonrpc"@, 0));
    assert(stands_first(bad, "id"@, 1));
    assert(stands_first(bad, "error"@, 2));
}

/// A notification names the protocol, its method and its parameters, and no
/// request.
pub proof fn law_notification_shape(method: Seq<char>, params: JsonView)
    ensures
        has_field(notification_view(method, params), "jsonrpc"@, JsonView::Str("2.0"@)),
        has_field(notification_view(method, params), "method"@, JsonView::Str(method)),
        has_field(notification_view(method, params), "params"@, params),
        lacks_field(notification_view(method, params), "id"@),
{
    lemma_field_names();
    let fields = notification_view(method, params)->Object_0;
    assert(stands_first(fields, "jsonrpc"@, 0));
    assert(stands_first(fields, "method"@, 1));
    assert(stands_first(fields, "params"@, 2));
}

/// An error object holds its code and its message.
pub proof fn law_error_shape(code: i64, message: Seq<char>)
    ensures
        has_field(
            error_view(code, message),
            "code"@,
            JsonView::Number(
                if code < 0 {
                    JsonNumber::NegInt(code)
                } else {
                    JsonNumber::PosInt(code as u64)
                },
            ),
        ),
        has_field(error_view(code, message), "message"@, JsonView::Str(message)),
{
    lemma_field_names();
    let fields = error_view(code, message)->Object_0;
    assert(stands_first(fields, "code"@, 0));
    assert(stands_first(fields, "message"@, 1));
}

proof fn lemma_methods_differ()
    ensures
        "initialize"@ != "submit"@,
        "initialize"@ != "interrupt"@,
        "initialize"@ != "shutdown"@,
        "submit"@ != "interrupt"@,
        "submit"@ != "shutdown"@,
        "interrupt"@ != "shutdown"@,
{
    reveal_strlit("initialize");
    reveal_strlit("submit");
    reveal_strlit("interrupt");
    reveal_strlit("shutdown");
    assert("initialize"@.len() == 10 && "submit"@.len() == 6);
    assert("interrupt"@.len() == 9 && "shutdown"@.len() == 8);
}

/// Whether a message asks for a method under an id.
pub open spec fn asks(value: JsonView, id: JsonView, method: Seq<char>) -> bool {
    has_field(value, "id"@, id) && has_field(value, "method"@, JsonView::Str(method))
}

/// A submission is accepted under its id and echoed: a piece of a message
/// with exactly the text that was submitted, then the end of the turn. The
/// server goes on.
pub proof fn law_submission_is_echoed(
    value: JsonView,
    id: JsonView,
    params: JsonView,
    payload: JsonView,
    text: Seq<char>,
)
    requires
        asks(value, id, "submit"@),
        has_field(value, "params"@, params),
        has_field(params, "payload"@, payload),
        has_field(payload, "text"@, JsonView::Str(text)),
    ensures
        ({
            let replies = agent_replies(value);
            &&& agent_goes_on(value)
            &&& replies.len() == 3
            &&& has_field(replies[0], "id"@, id)
            &&& exists|result: JsonView| #[trigger]
                has_field(replies[0], "result"@, result) && has_field(
                    result,
                    "accepted"@,
                    JsonView::Bool(true),
                )
            &&& has_field(replies[1], "method"@, JsonView::Str("agent/message_delta"@))
            &&& exists|delta: JsonView| #[trigger]
                has_field(replies[1], "params"@, delta) && has_field(
                    delta,
                    "delta"@,
                    JsonView::Str(text),
                ) && event_of("agent/message_delta"@, delta) == Some(
                    EventContent::MessageDelta(text),
                )
            &&& has_field(replies[2], "method"@, JsonView::Str("agent/turn_completed"@))
            &&& exists|done: JsonView| #[trigger]
                has_field(replies[2], "params"@, done) && has_field(
                    done,
                    "stop_reason"@,
                    JsonView::Str("end_turn"@),
                )
        }),
{
    lemma_methods_differ();
    law_get(value, "method"@, JsonView::Str("submit"@));
    law_get(value, "id"@, id);
    law_get(value, "params"@, params);
    law_get(params, "payload"@, payload);
    law_get(payload, "text"@, JsonView::Str(text));
    let replies = agent_replies(value);
    let result = JsonView::Object(seq![("accepted"@, JsonView::Bool(true))]);
    let delta = JsonView::Object(seq![("delta"@, JsonView::Str(text))]);
    let done = JsonView::Object(seq![("stop_reason"@, JsonView::Str("end_turn"@))]);
    law_response_shape(id, result);
    law_notification_shape("agent/message_delta"@, delta);
    law_notification_shape("agent/turn_completed"@, done);
    assert(stands_first(result->Object_0, "accepted"@, 0));
    assert(stands_first(delta->Object_0, "delta"@, 0));
    assert(stands_first(done->Object_0, "stop_reason"@, 0));
    law_delta_is_told(delta, text, None, false);
    assert(has_field(replies[0], "result"@, result));
    assert(has_field(replies[1], "params"@, delta));
    assert(has_field(replies[2], "params"@, done));
}

/// Interrupting and shutting down are acknowledged under the id of the
/// request; the server ends after the second only.
pub proof fn law_acknowledgements(value: JsonView, id: JsonView)
    ensures
        asks(value, id, "interrupt"@) ==> agent_goes_on(value) && agent_replies(value) == seq![
            response_view(
                id,
                "result"@,
                JsonView::Object(
                    seq![("ok"@, JsonView::Bool(true)), ("note"@, JsonView::Str("interrupted"@))],
                ),
            ),
        ],
        asks(value, id, "shutdown"@) ==> !agent_goes_on(value) && agent_replies(value) == seq![
            response_view(
                id,
                "result"@,
                JsonView::Object(
                    seq![("ok"@, JsonView::Bool(true)), ("note"@, JsonView::Str("goodbye"@))],
                ),
            ),
        ],
{
    lemma_methods_differ();
    law_get(value, "id"@, id);
    law_get(value, "method"@, JsonView::Str("interrupt"@));
    law_get(value, "method"@, JsonView::Str("shutdown"@));
}

/// A method that is not known is answered under the id of the request with the
/// error that says so and names it; a message without a method is not
/// answered. The server goes on after both.
pub proof fn law_unknown_methods(value: JsonView, id: JsonView, method: Seq<char>)
    ensures
        asks(value, id, method) && method != "initialize"@ && method != "submit"@ && method
            != "interrupt"@ && method != "shutdown"@ ==> agent_goes_on(value) && agent_replies(
            value,
        ) == seq![
            response_view(id, "error"@, error_view((-32601) as i64, "method not found: "@ + method)),
        ],
        lacks_field(value, "method"@) ==> agent_goes_on(value) && agent_replies(value).len() == 0,
{
    lemma_methods_differ();
    law_get(value, "id"@, id);
    law_get(value, "method"@, JsonView::Str(method));
}

/// The handshake is answered under the id of the request with what the server
/// is and can do: the methods that it answers and the notifications that it
/// sends.
pub proof fn law_handshake_answer(value: JsonView, id: JsonView)
    requires
        asks(value, id, "initialize"@),
    ensures
        ({
            let replies = agent_replies(value);
            &&& agent_goes_on(value)
            &&& replies.len() == 1
            &&& has_field(replies[0], "id"@, id)
            &&& exists|result: JsonView| #[trigger]
                has_field(replies[0], "result"@, result) && has_field(
                    result,
                    "protocol_version"@,
                    JsonView::Str("0.0.0-pr-b"@),
                ) && has_field(
                    result,
                    "supported_methods"@,
                    JsonView::Array(
                        seq![
                            JsonView::Str("initialize"@),
                            JsonView::Str("submit"@),
                            JsonView::Str("interrupt"@),
                            JsonView::Str("shutdown"@),
                        ],
                    ),
                ) && has_field(
                    result,
                    "supported_notifications"@,
                    JsonView::Array(
                        seq![
                            JsonView::Str("agent/message_delta"@),
                            JsonView::Str("agent/turn_completed"@),
                        ],
                    ),
                ) && has_field(
                    result,
                    "server_info"@,
                    JsonView::Object(
                        seq![
                            ("name"@, JsonView::Str("codex-agent-stub"@)),
                            ("version"@, JsonView::Str("0.1.0"@)),
                        ],
                    ),
                )
        }),
{
    lemma_methods_differ();
    law_get(value, "id"@, id);
    law_get(value, "method"@, JsonView::Str("initialize"@));
    let result = initialize_result();
    law_response_shape(id, result);
    lemma_info_names();
    let fields = result->Object_0;
    assert(stands_first(fields, "server_info"@, 0));
    assert(stands_first(fields, "protocol_version"@, 1));
    assert(stands_first(fields, "supported_methods"@, 2));
    assert(stands_first(fields, "supported_notifications"@, 3));
    assert(has_field(agent_replies(value)[0], "result"@, result));
}

/// The names of the fields of what a server says of itself differ.
pub(crate) proof fn lemma_info_names()
    ensures
        "server_info"@ != "protocol_version"@,
        "server_info"@ != "supported_methods"@,
        "server_info"@ != "supported_notifications"@,
        "protocol_version"@ != "supported_methods"@,
        "protocol_version"@ != "supported_notifications"@,
        "supported_methods"@ != "supported_notifications"@,
        "name"@ != "version"@,
{
    reveal_strlit("server_info");
    reveal_strlit("protocol_version");
    reveal_strlit("supported_methods");
    reveal_strlit("supported_notifications");
    reveal_strlit("name");
    reveal_strlit("version");
    assert("server_info"@.len() == 11 && "protocol_version"@.len() == 16);
    assert("supported_methods"@.len() == 17 && "supported_notifications"@.len() == 23);
    assert("name"@.len() != "version"@.len());
}

/// A prompt comes back: what the bridge hands to the agent, put into a
/// request, is echoed by the agent as a piece of a message that the user
/// interface is told with exactly the characters of the prompt.
pub proof fn law_prompt_comes_back(
    n: nat,
    prompt: Seq<char>,
    request: JsonView,
    id: JsonView,
    params: JsonView,
    payload: JsonView,
)
    requires
        prompt_actions(n, prompt, false).last() matches ActionView::Submit { payload: sent, .. }
            && sent == payload,
        asks(request, id, "submit"@),
        has_field(request, "params"@, params),
        has_field(params, "payload"@, payload),
    ensures
        agent_replies(request).len() == 3,
        exists|delta: JsonView| #[trigger]
            has_field(agent_replies(request)[1], "params"@, delta) && event_of(
                "agent/message_delta"@,
                delta,
            ) == Some(EventContent::MessageDelta(prompt)),
{
    assert(stands_first(payload->Object_0, "text"@, 0));
    law_submission_is_echoed(request, id, params, payload, prompt);
}

/// Messages hold exactly the fields that are named: three in a response and in
/// a notification, two in an error.
pub proof fn law_message_sizes(
    id: JsonView,
    field: Seq<char>,
    content: JsonView,
    method: Seq<char>,
    code: i64,
)
    ensures
        response_view(id, field, content) matches JsonView::Object(fields) && fields.len() == 3
            && fields[0].0 == "jsonrpc"@ && fields[1].0 == "id"@ && fields[2].0 == field,
        notification_view(method, content) matches JsonView::Object(fields) && fields.len() == 3
            && fields[0].0 == "jsonrpc"@ && fields[1].0 == "method"@ && fields[2].0 == "params"@,
        error_view(code, method) matches JsonView::Object(fields) && fields.len() == 2
            && fields[0].0 == "code"@ && fields[1].0 == "message"@,
{
}

/// A submission without a text is answered like any other, with a notice in
/// place of the text; a request without an id is answered under null.
pub proof fn law_nothing_submitted(
    value: JsonView,
    params: JsonView,
    payload: JsonView,
    text: JsonView,
)
    ensures
        lacks_field(value, "id"@) ==> echoed_id(value) == JsonView::Null,
        lacks_field(value, "params"@) || (has_field(value, "params"@, params) && lacks_field(
            params,
            "payload"@,
        )) || (has_field(value, "params"@, params) && has_field(params, "payload"@, payload)
            && lacks_field(payload, "text"@)) || (has_field(value, "params"@, params) && has_field(
            params,
            "payload"@,
            payload,
        ) && has_field(payload, "text"@, text) && !(text is Str)) ==> (has_field(
            value,
            "method"@,
            JsonView::Str("submit"@),
        ) ==> agent_replies(value).len() == 3 && agent_replies(value)[1] == notification_view(
            "agent/message_delta"@,
            JsonView::Object(seq![("delta"@, JsonView::Str("(no payload.text)"@))]),
        )),
{
    reveal_strlit("initialize");
    reveal_strlit("submit");
    assert("initialize"@.len() == 10 && "submit"@.len() == 6);
    law_get(value, "id"@, text);
    law_get(value, "method"@, JsonView::Str("submit"@));
    law_get(value, "params"@, params);
    law_get(params, "payload"@, payload);
    law_get(payload, "text"@, text);
}

} // verus!
