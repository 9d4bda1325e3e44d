//! What the language-server role answers and passes on.
use crate::desktop::agent_laws::{
    law_error_shape, law_notification_shape, law_response_shape, lemma_field_names,
    lemma_info_names,
};
use crate::desktop::agent_role::{error_view, notification_view, response_view};
use crate::desktop::lspd_role::{
    deferred_result, failure_view, follows_frame, forwarded_result, handshake_answer,
    handshake_view, is_forwarded, is_step, lspd_info, pumped, server_id_text, started_result, translated, Forward,
    HandshakeStep, LspdError, LspdRequest, LspdStep, INIT_TIMEOUT_SECS,
};
use crate::json::{has_field, lacks_field, law_get, stands_first, JsonNumber, JsonView};
use crate::json_text::error_text;
use crate::text::decimal;
use vstd::prelude::*;

verus! {

/// Whether a message is a response under an id with an error of the given
/// code and message.
pub open spec fn is_failure(v: JsonView, id: JsonView, code: i64, message: Seq<char>) -> bool {
    &&& has_field(v, "id"@, id)
    &&& lacks_field(v, "result"@)
    &&& exists|error: JsonView| #[trigger]
        has_field(v, "error"@, error) && has_field(
            error,
            "code"@,
            JsonView::Number(JsonNumber::NegInt(code)),
        ) && has_field(error, "message"@, JsonView::Str(message))
}

/// Whether a message is a response under an id with the given result.
pub open spec fn is_result(v: JsonView, id: JsonView, result: JsonView) -> bool {
    has_field(v, "id"@, id) && has_field(v, "result"@, result) && lacks_field(v, "error"@)
}

proof fn lemma_failure(id: JsonView, code: i64, message: Seq<char>)
    requires
        code < 0,
    ensures
        is_failure(response_view(id, "error"@, error_view(code, message)), id, code, message),
{
    let error = error_view(code, message);
    law_response_shape(id, error);
    law_error_shape(code, message);
    assert(has_field(response_view(id, "error"@, error), "error"@, error));
}

/// Each failure is answered under the id of the request with the code of its
/// kind and a message that names what it is about.
pub proof fn law_failures(id: JsonView, name: String, why: String)
    ensures
        is_failure(
            failure_view(id, LspdError::UnknownLanguage(name)),
            id,
            (-32602) as i64,
            "unknown language: "@ + name@,
        ),
        is_failure(
            failure_view(id, LspdError::UnknownServerId(name)),
            id,
            (-32602) as i64,
            "unknown server_id: "@ + name@,
        ),
        is_failure(
            failure_view(id, LspdError::SpawnFailed(name, why)),
            id,
            (-32001) as i64,
            "failed to spawn `"@ + name@ + "`: "@ + why@ + " (is it on PATH? hint: `which "@ + name@
                + "`)"@,
        ),
        is_failure(failure_view(id, LspdError::Other(why)), id, (-32603) as i64, why@),
{
    lemma_failure(id, (-32602) as i64, "unknown language: "@ + name@);
    lemma_failure(id, (-32602) as i64, "unknown server_id: "@ + name@);
    lemma_failure(
        id,
        (-32001) as i64,
        "failed to spawn `"@ + name@ + "`: "@ + why@ + " (is it on PATH? hint: `which "@ + name@
            + "`)"@,
    );
    lemma_failure(id, (-32603) as i64, why@);
}

/// Whether a request to pass something on is one that a language server
/// knows under the given name.
pub open spec fn lsp_name(method: Seq<char>) -> Option<Seq<char>> {
    if method == "lsp/textDocumentDidOpen"@ {
        Some("textDocument/didOpen"@)
    } else if method == "lsp/textDocumentDidChange"@ {
        Some("textDocument/didChange"@)
    } else if method == "lsp/textDocumentDidClose"@ {
        Some("textDocument/didClose"@)
    } else {
        None
    }
}

proof fn lemma_forward_names()
    ensures
        "lsp/textDocumentDidOpen"@ != "lsp/textDocumentDidChange"@,
        "lsp/textDocumentDidOpen"@ != "lsp/textDocumentDidClose"@,
        "lsp/textDocumentDidChange"@ != "lsp/textDocumentDidClose"@,
        "textDocument"@ != "contentChanges"@,
{
    reveal_strlit("lsp/textDocumentDidOpen");
    reveal_strlit("lsp/textDocumentDidChange");
    reveal_strlit("lsp/textDocumentDidClose");
    reveal_strlit("textDocument");
    reveal_strlit("contentChanges");
    assert("lsp/textDocumentDidOpen"@.len() == 23);
    assert("lsp/textDocumentDidChange"@.len() == 25);
    assert("lsp/textDocumentDidClose"@.len() == 24);
    assert("textDocument"@.len() != "contentChanges"@.len());
}

/// A request about a document is passed on under the name that language
/// servers know, with the document that it names; a change is passed on with
/// its changes. Others are not passed on.
pub proof fn law_translation(
    method: Seq<char>,
    params: JsonView,
    document: JsonView,
    changes: JsonView,
)
    ensures
        lsp_name(method) is None ==> translated(method, params) is None,
        lsp_name(method) matches Some(name) ==> (translated(method, params) matches Some((given, p))
            && given == name),
        lsp_name(method) is Some && has_field(params, "text_document"@, document) ==> has_field(
            translated(method, params)->Some_0.1,
            "textDocument"@,
            document,
        ),
        lsp_name(method) is Some && lacks_field(params, "text_document"@) ==> has_field(
            translated(method, params)->Some_0.1,
            "textDocument"@,
            JsonView::Null,
        ),
        method == "lsp/textDocumentDidChange"@ && has_field(params, "content_changes"@, changes)
            ==> has_field(translated(method, params)->Some_0.1, "contentChanges"@, changes),
        method == "lsp/textDocumentDidChange"@ && lacks_field(params, "content_changes"@)
            ==> has_field(
            translated(method, params)->Some_0.1,
            "contentChanges"@,
            JsonView::Array(Seq::empty()),
        ),
        method == "lsp/textDocumentDidOpen"@ || method == "lsp/textDocumentDidClose"@
            ==> lacks_field(translated(method, params)->Some_0.1, "contentChanges"@),
{
    lemma_forward_names();
    law_get(params, "text_document"@, document);
    law_get(params, "content_changes"@, changes);
    if translated(method, params) is Some {
        let fields = translated(method, params)->Some_0.1->Object_0;
        assert(stands_first(fields, "textDocument"@, 0));
        if method == "lsp/textDocumentDidChange"@ {
            assert(stands_first(fields, "contentChanges"@, 1));
        }
    }
}

/// What is passed on goes to the server that the request names, where that
/// runs; where it does not run, or none is named, the request fails and says
/// so.
pub proof fn law_forward_reaches_its_server(
    r: Result<Forward, LspdError>,
    method: Seq<char>,
    params: JsonView,
    servers: Set<Seq<char>>,
    server: Seq<char>,
)
    requires
        is_forwarded(r, method, params, servers),
        lsp_name(method) is Some,
    ensures
        has_field(params, "server_id"@, JsonView::Str(server)) && servers.contains(server) ==> (
        r matches Ok(f) && f.server_id@ == server && has_field(
            f.notification@,
            "method"@,
            JsonView::Str(lsp_name(method)->Some_0),
        ) && has_field(f.notification@, "params"@, translated(method, params)->Some_0.1)
            && lacks_field(f.notification@, "id"@)),
        has_field(params, "server_id"@, JsonView::Str(server)) && !servers.contains(server) ==> (
        r matches Err(LspdError::UnknownServerId(id)) && id@ == server),
        lacks_field(params, "server_id"@) ==> (r matches Err(LspdError::Other(why)) && why@
            == "missing server_id"@),
{
    law_get(params, "server_id"@, JsonView::Str(server));
    law_translation(method, params, JsonView::Null, JsonView::Null);
    let (name, lsp_params) = translated(method, params)->Some_0;
    law_notification_shape(name, lsp_params);
}

proof fn lemma_step_names()
    ensures
        "initialize"@ != "lsp/start"@,
        "initialize"@ != "shutdown"@,
        "lsp/start"@ != "shutdown"@,
        lsp_name("initialize"@) is None,
        lsp_name("lsp/start"@) is None,
        lsp_name("shutdown"@) is None,
{
    reveal_strlit("initialize");
    reveal_strlit("lsp/start");
    reveal_strlit("shutdown");
    reveal_strlit("lsp/textDocumentDidOpen");
    reveal_strlit("lsp/textDocumentDidChange");
    reveal_strlit("lsp/textDocumentDidClose");
    assert("initialize"@.len() == 10 && "lsp/start"@.len() == 9 && "shutdown"@.len() == 8);
    assert("lsp/textDocumentDidOpen"@.len() == 23);
    assert("lsp/textDocumentDidChange"@.len() == 25);
    assert("lsp/textDocumentDidClose"@.len() == 24);
}

/// What each request calls for: the handshake and the shutdown are answered
/// with a result, a start is carried out, what is about a document is passed
/// on, and anything else is answered with the error that names it.
pub proof fn law_requests(
    step: LspdStep,
    req: LspdRequest,
    version: Seq<char>,
    servers: Set<Seq<char>>,
    server: Seq<char>,
)
    requires
        is_step(step, req, version, servers),
    ensures
        req.method@ == "initialize"@ ==> (step matches LspdStep::Reply(v) && is_result(
            v@,
            req.id@,
            lspd_info(version),
        )),
        req.method@ == "shutdown"@ ==> (step matches LspdStep::Reply(v) && is_result(
            v@,
            req.id@,
            JsonView::Object(
                seq![("shutdown"@, JsonView::Bool(true)), ("ok"@, JsonView::Bool(true))],
            ),
        )),
        req.method@ == "lsp/start"@ ==> step is Start,
        lsp_name(req.method@) is Some && has_field(req.params@, "server_id"@, JsonView::Str(server))
            && servers.contains(server) ==> (step matches LspdStep::Forward(f) && f.server_id@
            == server && has_field(
            f.notification@,
            "method"@,
            JsonView::Str(lsp_name(req.method@)->Some_0),
        )),
        lsp_name(req.method@) is Some && has_field(req.params@, "server_id"@, JsonView::Str(server))
            && !servers.contains(server) ==> (step matches LspdStep::Reply(v) && is_failure(
            v@,
            req.id@,
            (-32602) as i64,
            "unknown server_id: "@ + server,
        )),
        lsp_name(req.method@) is None && req.method@ != "initialize"@ && req.method@ != "shutdown"@
            && req.method@ != "lsp/start"@ ==> (step matches LspdStep::Reply(v) && is_failure(
            v@,
            req.id@,
            (-32601) as i64,
            "method not found: "@ + req.method@,
        )),
{
    lemma_step_names();
    law_response_shape(req.id@, lspd_info(version));
    law_response_shape(
        req.id@,
        JsonView::Object(seq![("shutdown"@, JsonView::Bool(true)), ("ok"@, JsonView::Bool(true))]),
    );
    lemma_failure(req.id@, (-32601) as i64, "method not found: "@ + req.method@);
    if lsp_name(req.method@) is Some {
        let f = choose|f: Result<Forward, LspdError>| #[trigger]
            is_forwarded(f, req.method@, req.params@, servers) && match f {
                Ok(forward) => step == LspdStep::Forward(forward),
                Err(err) => step matches LspdStep::Reply(v) && v@ == failure_view(req.id@, err),
            };
        law_forward_reaches_its_server(f, req.method@, req.params@, servers, server);
        if let Err(LspdError::UnknownServerId(id)) = f {
            law_failures(req.id@, id, id);
        }
    }
}

/// What the role says of itself: its name and version, and the methods and
/// notifications that it knows.
pub proof fn law_lspd_info(version: Seq<char>)
    ensures
        has_field(
            lspd_info(version),
            "server_info"@,
            JsonView::Object(
                seq![
                    ("name"@, JsonView::Str("codex-lspd"@)),
                    ("version"@, JsonView::Str(version)),
                ],
            ),
        ),
        has_field(lspd_info(version), "protocol_version"@, JsonView::Str("0.0.0-pr-u"@)),
        has_field(
            lspd_info(version),
            "supported_methods"@,
            JsonView::Array(
                seq![
                    JsonView::Str("initialize"@),
                    JsonView::Str("lsp/start"@),
                    JsonView::Str("lsp/textDocumentDidOpen"@),
                    JsonView::Str("lsp/textDocumentDidChange"@),
                    JsonView::Str("lsp/textDocumentDidClose"@),
                    JsonView::Str("shutdown"@),
                ],
            ),
        ),
        has_field(
            lspd_info(version),
            "supported_notifications"@,
            JsonView::Array(seq![JsonView::Str("textDocument/publishDiagnostics"@)]),
        ),
{
    lemma_info_names();
    let fields = lspd_info(version)->Object_0;
    assert(stands_first(fields, "server_info"@, 0));
    assert(stands_first(fields, "protocol_version"@, 1));
    assert(stands_first(fields, "supported_methods"@, 2));
    assert(stands_first(fields, "supported_notifications"@, 3));
}

/// The results of a start and of a message that was passed on name the server;
/// a start that is not carried out says which program with which arguments it
/// would be.
pub proof fn law_results_name_the_server(
    server: Seq<char>,
    bin: Seq<char>,
    args: Seq<Seq<char>>,
    capabilities: JsonView,
)
    ensures
        has_field(started_result(server, capabilities), "server_id"@, JsonView::Str(server)),
        has_field(started_result(server, capabilities), "capabilities"@, capabilities),
        has_field(forwarded_result(server), "server_id"@, JsonView::Str(server)),
        has_field(forwarded_result(server), "forwarded"@, JsonView::Bool(true)),
        has_field(deferred_result(server, bin, args), "server_id"@, JsonView::Str(server)),
        exists|invoked: JsonView| #[trigger]
            has_field(deferred_result(server, bin, args), "would_invoke"@, invoked) && has_field(
                invoked,
                "bin"@,
                JsonView::Str(bin),
            ) && has_field(
                invoked,
                "args"@,
                JsonView::Array(Seq::new(args.len(), |i: int| JsonView::Str(args[i]))),
            ),
{
    reveal_strlit("server_id");
    reveal_strlit("capabilities");
    reveal_strlit("forwarded");
    reveal_strlit("would_invoke");
    reveal_strlit("bin");
    reveal_strlit("args");
    assert("server_id"@.len() == 9 && "capabilities"@.len() == 12 && "would_invoke"@.len() == 12);
    assert("forwarded"@.len() == 9 && "forwarded"@[0] == 'f' && "server_id"@[0] == 's');
    assert("bin"@.len() != "args"@.len());
    let started = started_result(server, capabilities)->Object_0;
    assert(stands_first(started, "server_id"@, 0));
    assert(stands_first(started, "capabilities"@, 1));
    let forwarded = forwarded_result(server)->Object_0;
    assert(stands_first(forwarded, "forwarded"@, 0));
    assert(stands_first(forwarded, "server_id"@, 1));
    let deferred = deferred_result(server, bin, args)->Object_0;
    assert(stands_first(deferred, "server_id"@, 0));
    assert(stands_first(deferred, "would_invoke"@, 1));
    let invoked = deferred[1].1;
    assert(stands_first(invoked->Object_0, "bin"@, 0));
    assert(stands_first(invoked->Object_0, "args"@, 1));
    assert(has_field(deferred_result(server, bin, args), "would_invoke"@, invoked));
}

/// Servers are named by their numbers.
pub proof fn law_server_ids(n: u64)
    ensures
        server_id_text(n) == "srv"@ + decimal(n as nat),
{
}

/// The handshake ends with the answer to the request that opened it, and with
/// nothing else: with the capabilities that the answer gives, or none where it
/// gives none.
pub proof fn law_handshake_ends_with_its_answer(
    process_id: u32,
    root: Option<Seq<char>>,
    version: Seq<char>,
    id: JsonView,
    v: JsonView,
    result: JsonView,
    capabilities: JsonView,
)
    requires
        has_field(handshake_view(process_id, root, version), "id"@, id),
    ensures
        has_field(v, "id"@, id) && has_field(v, "result"@, result) && has_field(
            result,
            "capabilities"@,
            capabilities,
        ) ==> handshake_answer(v) == Some(capabilities),
        has_field(v, "id"@, id) && has_field(v, "result"@, result) && lacks_field(
            result,
            "capabilities"@,
        ) ==> handshake_answer(v) == Some(JsonView::Object(Seq::empty())),
        has_field(v, "id"@, id) && lacks_field(v, "result"@) ==> handshake_answer(v) == Some(
            JsonView::Object(Seq::empty()),
        ),
        !has_field(v, "id"@, id) ==> handshake_answer(v) is None,
{
    lemma_field_names();
    let fields = handshake_view(process_id, root, version)->Object_0;
    assert(stands_first(fields, "id"@, 1));
    law_get(handshake_view(process_id, root, version), "id"@, id);
    law_get(handshake_view(process_id, root, version), "id"@, fields[1].1);
    law_get(v, "id"@, id);
    law_get(v, "result"@, result);
    law_get(result, "capabilities"@, capabilities);
}

/// The handshake is opened with a request that names this process, the folder
/// that was asked for, and who asks.
pub proof fn law_handshake_request(
    process_id: u32,
    root: Option<Seq<char>>,
    version: Seq<char>,
)
    ensures
        ({
            let request = handshake_view(process_id, root, version);
            &&& has_field(request, "method"@, JsonView::Str("initialize"@))
            &&& has_field(request, "id"@, JsonView::Number(JsonNumber::PosInt(1)))
            &&& exists|params: JsonView| #[trigger]
                has_field(request, "params"@, params) && has_field(
                    params,
                    "processId"@,
                    JsonView::Number(JsonNumber::PosInt(process_id as u64)),
                ) && (root matches Some(uri) ==> has_field(
                    params,
                    "rootUri"@,
                    JsonView::Str(uri),
                )) && (root is None ==> has_field(params, "rootUri"@, JsonView::Null))
                    && has_field(
                    params,
                    "clientInfo"@,
                    JsonView::Object(
                        seq![
                            ("name"@, JsonView::Str("codex-lspd"@)),
                            ("version"@, JsonView::Str(version)),
                        ],
                    ),
                )
        }),
{
    lemma_field_names();
    let request = handshake_view(process_id, root, version);
    let fields = request->Object_0;
    assert(stands_first(fields, "id"@, 1));
    assert(stands_first(fields, "method"@, 2));
    assert(stands_first(fields, "params"@, 3));
    let params = fields[3].1;
    reveal_strlit("processId");
    reveal_strlit("rootUri");
    reveal_strlit("rootPath");
    reveal_strlit("capabilities");
    reveal_strlit("clientInfo");
    assert("processId"@.len() == 9 && "rootUri"@.len() == 7 && "rootPath"@.len() == 8);
    assert("capabilities"@.len() == 12 && "clientInfo"@.len() == 10);
    assert(stands_first(params->Object_0, "processId"@, 0));
    assert(stands_first(params->Object_0, "rootUri"@, 1));
    assert(stands_first(params->Object_0, "clientInfo"@, 4));
    assert(has_field(request, "params"@, params));
}

/// Diagnostics are passed to the parent, as a notification of the same name;
/// other messages of a server are not.
pub proof fn law_only_diagnostics_are_passed_on(
    server_id: Seq<char>,
    v: JsonView,
    method: Seq<char>,
    fields: Seq<(Seq<char>, JsonView)>,
)
    ensures
        has_field(v, "method"@, JsonView::Str("textDocument/publishDiagnostics"@)) ==> (pumped(
            server_id,
            v,
        ) matches Some(m) && has_field(
            m,
            "method"@,
            JsonView::Str("textDocument/publishDiagnostics"@),
        ) && lacks_field(m, "id"@)),
        has_field(v, "method"@, JsonView::Str("textDocument/publishDiagnostics"@)) && lacks_field(
            v,
            "params"@,
        ) ==> (pumped(server_id, v) matches Some(m) && has_field(
            m,
            "params"@,
            JsonView::Object(seq![("server_id"@, JsonView::Str(server_id))]),
        )),
        has_field(v, "method"@, JsonView::Str("textDocument/publishDiagnostics"@)) && has_field(
            v,
            "params"@,
            JsonView::Object(fields),
        ) ==> (pumped(server_id, v) matches Some(m) && has_field(
            m,
            "params"@,
            JsonView::Object(fields).with("server_id"@, JsonView::Str(server_id)),
        )),
        has_field(v, "method"@, JsonView::Str(method)) && method
            != "textDocument/publishDiagnostics"@ ==> pumped(server_id, v) is None,
        lacks_field(v, "method"@) ==> pumped(server_id, v) is None,
{
    law_get(v, "method"@, JsonView::Str(method));
    law_get(v, "method"@, JsonView::Str("textDocument/publishDiagnostics"@));
    law_get(v, "params"@, JsonView::Object(fields));
    if let Some(m) = pumped(server_id, v) {
        let params = m->Object_0[2].1;
        law_notification_shape("textDocument/publishDiagnostics"@, params);
        assert(m == notification_view("textDocument/publishDiagnostics"@, params));
        let none = Seq::<(Seq<char>, JsonView)>::empty();
        crate::json::law_put_field_place(none, "server_id"@, JsonView::Str(server_id), 0);
        assert(none.push(("server_id"@, JsonView::Str(server_id))) =~= seq![
            ("server_id"@, JsonView::Str(server_id)),
        ]);
    }
}

/// What the handshake says of the client: it applies no edits, wants to hear
/// of what was saved and of diagnostics without further places, and wants no
/// trace. A server that is not started is answered with how to start it.
pub proof fn law_handshake_capabilities(
    process_id: u32,
    root: Option<Seq<char>>,
    version: Seq<char>,
    bin: Seq<char>,
    args: Seq<Seq<char>>,
)
    ensures
        handshake_view(process_id, root, version) matches JsonView::Object(fields) && fields.len()
            == 4 && fields[0] == ("jsonrpc"@, JsonView::Str("2.0"@)) && (fields[3].1 matches
            JsonView::Object(params) && params.len() == 7 && params[2] == (
            "rootPath"@,
            JsonView::Null,
        ) && params[3] == (
            "capabilities"@,
            JsonView::Object(
                seq![
                    (
                        "workspace"@,
                        JsonView::Object(
                            seq![
                                ("applyEdit"@, JsonView::Bool(false)),
                                ("workspaceEdit"@, JsonView::Null),
                            ],
                        ),
                    ),
                    (
                        "textDocument"@,
                        JsonView::Object(
                            seq![
                                (
                                    "synchronization"@,
                                    JsonView::Object(seq![("didSave"@, JsonView::Bool(true))]),
                                ),
                                (
                                    "publishDiagnostics"@,
                                    JsonView::Object(
                                        seq![("relatedInformation"@, JsonView::Bool(false))],
                                    ),
                                ),
                            ],
                        ),
                    ),
                ],
            ),
        ) && params[5] == ("workspaceFolders"@, JsonView::Null) && params[6] == (
            "trace"@,
            JsonView::Str("off"@),
        )),
        deferred_result(version, bin, args) matches JsonView::Object(fields) && fields.len() == 3
            && fields[2] == (
            "note"@,
            JsonView::Str("spawn deferred; set CODEX_LSPD_REAL_SPAWN=1 to spawn the real server"@),
        ),
        started_result(version, JsonView::Null)->Object_0.len() == 2,
        forwarded_result(version)->Object_0.len() == 2,
{
}

/// A language server has half a minute to answer the handshake.
pub proof fn law_handshake_patience()
    ensures
        INIT_TIMEOUT_SECS == 30,
{
}

/// A frame ends the handshake where it answers the request, with the
/// capabilities that it names; where it answers something else the next frame
/// is read, and one that is no JSON is a failure that says why.
pub proof fn law_handshake_frames(
    step: HandshakeStep,
    v: JsonView,
    result: JsonView,
    capabilities: JsonView,
    e: serde_json::Error,
)
    ensures
        follows_frame(step, Ok::<JsonView, serde_json::Error>(v)) && has_field(
            v,
            "id"@,
            JsonView::Number(JsonNumber::PosInt(1)),
        ) && has_field(v, "result"@, result) && has_field(result, "capabilities"@, capabilities)
            ==> (step matches HandshakeStep::Done(c) && c@ == capabilities),
        follows_frame(step, Ok::<JsonView, serde_json::Error>(v)) && !has_field(
            v,
            "id"@,
            JsonView::Number(JsonNumber::PosInt(1)),
        ) ==> step is Read,
        follows_frame(step, Err::<JsonView, serde_json::Error>(e)) ==> (step matches
            HandshakeStep::Fail(LspdError::Other(why)) && why@ == "parse frame as JSON: "@
            + error_text(e)),
{
    let id = JsonView::Number(JsonNumber::PosInt(1));
    let request = handshake_view(0, None, Seq::empty());
    law_handshake_request(0, None, Seq::empty());
    law_handshake_ends_with_its_answer(0, None, Seq::empty(), id, v, result, capabilities);
}

/// Diagnostics whose parameters are no object are passed on as they are.
pub proof fn law_odd_diagnostics(server_id: Seq<char>, v: JsonView, params: JsonView)
    requires
        has_field(v, "method"@, JsonView::Str("textDocument/publishDiagnostics"@)),
        has_field(v, "params"@, params),
        !(params is Object),
    ensures
        pumped(server_id, v) == Some(
            notification_view("textDocument/publishDiagnostics"@, params),
        ),
{
    law_get(v, "method"@, JsonView::Str("textDocument/publishDiagnostics"@));
    law_get(v, "params"@, params);
}

} // verus!
