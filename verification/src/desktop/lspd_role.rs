//! The language-server role: a JSON-RPC server that starts language servers
//! and passes messages between them and its parent.
//!
//! The supervisor here decides what each request is answered with and what is
//! passed on. Starting processes, reading and writing are left to the caller,
//! who hands back what came of them.
use crate::desktop::agent_role::{
    error_object, error_view, notification, notification_view, response, response_view,
};
use crate::json::{
    field_views, law_put_field, lookup, object1, object2, object3, object4, push_field, text_array,
    Json, JsonNumber, JsonView,
};
use crate::json_text::{describe, error_text, parsed_text, read_text};
use crate::keyed::KeyedMap;
use crate::text::{
    concat_text, decimal, decimal_string, law_decimal_injective, opt_chars, same_text, trim,
    trimmed,
};
use vstd::prelude::*;

verus! {

/// How long a language server may take for its part of the handshake.
pub const INIT_TIMEOUT_SECS: u64 = 30;

/// Whether a line is to be passed over.
pub fn is_blank_line(line: &str) -> (r: bool)
    ensures
        r == (trimmed(line@).len() == 0),
{
    let rest = trim(line);
    proof {
        reveal_strlit("");
        if rest@.len() == 0 {
            assert(rest@ =~= ""@);
        }
    }
    same_text(rest.as_str(), "")
}

/// A request from the parent.
#[derive(Debug, PartialEq, Eq)]
pub struct LspdRequest {
    pub id: Json,
    pub method: String,
    /// The parameters, null where there are none.
    pub params: Json,
}

/// Why a request failed.
#[derive(Debug, PartialEq, Eq)]
pub enum LspdError {
    /// No server is known for the language.
    UnknownLanguage(String),
    /// No server of this id runs.
    UnknownServerId(String),
    /// The program, and why it did not start.
    SpawnFailed(String, String),
    /// Anything else.
    Other(String),
}

/// The error code of a failure.
pub open spec fn failure_code(err: LspdError) -> i64 {
    match err {
        LspdError::UnknownLanguage(_) => (-32602) as i64,
        LspdError::UnknownServerId(_) => (-32602) as i64,
        LspdError::SpawnFailed(_, _) => (-32001) as i64,
        LspdError::Other(_) => (-32603) as i64,
    }
}

/// The message of a failure.
pub open spec fn failure_text(err: LspdError) -> Seq<char> {
    match err {
        LspdError::UnknownLanguage(language) => "unknown language: "@ + language@,
        LspdError::UnknownServerId(id) => "unknown server_id: "@ + id@,
        LspdError::SpawnFailed(bin, why) => "failed to spawn `"@ + bin@ + "`: "@ + why@
            + " (is it on PATH? hint: `which "@ + bin@ + "`)"@,
        LspdError::Other(why) => why@,
    }
}

/// The response to a request that failed.
pub open spec fn failure_view(id: JsonView, err: LspdError) -> JsonView {
    response_view(id, "error"@, error_view(failure_code(err), failure_text(err)))
}

/// The response to a request that failed.
pub fn lspd_error_to_json(id: Json, err: &LspdError) -> (r: Json)
    ensures
        r@ == failure_view(id@, *err),
{
    match err {
        LspdError::UnknownLanguage(language) => {
            let text = concat_text("unknown language: ", language.as_str());
            response(id, "error", error_object(-32602, text.as_str()))
        },
        LspdError::UnknownServerId(server) => {
            let text = concat_text("unknown server_id: ", server.as_str());
            response(id, "error", error_object(-32602, text.as_str()))
        },
        LspdError::SpawnFailed(bin, why) => {
            let mut text = concat_text("failed to spawn `", bin.as_str());
            text.append("`: ");
            text.append(why.as_str());
            text.append(" (is it on PATH? hint: `which ");
            text.append(bin.as_str());
            text.append("`)");
            response(id, "error", error_object(-32001, text.as_str()))
        },
        LspdError::Other(why) => response(id, "error", error_object(-32603, why.as_str())),
    }
}

/// The response to a line that is not a request.
pub fn invalid_request(line: &str) -> (r: Json)
    ensures
        r@ == response_view(
            JsonView::Null,
            "error"@,
            error_view((-32603) as i64, "invalid JSON-RPC request: "@ + line@),
        ),
{
    let text = concat_text("invalid JSON-RPC request: ", line);
    response(Json::Null, "error", error_object(-32603, text.as_str()))
}

/// The program and arguments that serve a language.
pub open spec fn invocation(language: Seq<char>) -> Option<(Seq<char>, Seq<Seq<char>>)> {
    if language == "rust"@ {
        Some(("rust-analyzer"@, Seq::empty()))
    } else if language == "python"@ {
        Some(("pyright-langserver"@, seq!["--stdio"@]))
    } else if language == "typescript"@ || language == "javascript"@ {
        Some(("typescript-language-server"@, seq!["--stdio"@]))
    } else if language == "go"@ {
        Some(("gopls"@, Seq::empty()))
    } else {
        None
    }
}

/// How a language server is started.
#[derive(Debug, PartialEq, Eq)]
pub struct ServerCommand {
    pub bin: String,
    pub args: Vec<String>,
}

impl ServerCommand {
    /// The program and its arguments.
    pub open spec fn view(&self) -> (Seq<char>, Seq<Seq<char>>) {
        (self.bin@, Seq::new(self.args@.len(), |i: int| self.args@[i]@))
    }

    fn plain(bin: &str) -> (r: ServerCommand)
        ensures
            r@ == (bin@, Seq::<Seq<char>>::empty()),
    {
        let r = ServerCommand { bin: bin.to_owned(), args: Vec::new() };
        assert(r@.1 =~= Seq::<Seq<char>>::empty());
        r
    }

    fn on_stdio(bin: &str) -> (r: ServerCommand)
        ensures
            r@ == (bin@, seq!["--stdio"@]),
    {
        let mut args: Vec<String> = Vec::new();
        args.push("--stdio".to_owned());
        let r = ServerCommand { bin: bin.to_owned(), args };
        assert(r@.1 =~= seq!["--stdio"@]);
        r
    }

    /// The arguments as an array.
    fn args_json(&self) -> (r: Json)
        ensures
            r@ == args_view(self@.1),
    {
        let mut out: Vec<Json> = Vec::new();
        let mut i: usize = 0;
        while i < self.args.len()
            invariant
                i <= self.args.len(),
                out.len() == i,
                forall|k: int|
                    0 <= k < i ==> (#[trigger] out@[k]).model() == JsonView::Str(self.args@[k]@),
            decreases self.args.len() - i,
        {
            out.push(Json::text(self.args[i].as_str()));
            i = i + 1;
        }
        assert(crate::json::item_views(out@) =~= args_view(self@.1)->Array_0);
        Json::Array(out)
    }
}

/// A run of strings as an array.
pub open spec fn args_view(args: Seq<Seq<char>>) -> JsonView {
    JsonView::Array(Seq::new(args.len(), |i: int| JsonView::Str(args[i])))
}

/// Whether a command starts the given program with the given arguments.
pub open spec fn starts(r: Option<ServerCommand>, bin: Seq<char>, args: Seq<Seq<char>>) -> bool {
    r matches Some(command) && command.bin@ == bin && command.args@.len() == args.len() && forall|
        i: int,
    |
        0 <= i < args.len() ==> (#[trigger] command.args@[i])@ == args[i]
}

proof fn lemma_languages_differ()
    ensures
        "rust"@ != "python"@,
        "rust"@ != "typescript"@,
        "rust"@ != "javascript"@,
        "rust"@ != "go"@,
        "python"@ != "typescript"@,
        "python"@ != "javascript"@,
        "python"@ != "go"@,
        "typescript"@ != "javascript"@,
        "typescript"@ != "go"@,
        "javascript"@ != "go"@,
        "rust-analyzer"@ != "pyright-langserver"@,
        "rust-analyzer"@ != "typescript-language-server"@,
        "rust-analyzer"@ != "gopls"@,
        "pyright-langserver"@ != "typescript-language-server"@,
        "pyright-langserver"@ != "gopls"@,
        "typescript-language-server"@ != "gopls"@,
{
    reveal_strlit("rust");
    reveal_strlit("python");
    reveal_strlit("typescript");
    reveal_strlit("javascript");
    reveal_strlit("go");
    reveal_strlit("rust-analyzer");
    reveal_strlit("pyright-langserver");
    reveal_strlit("typescript-language-server");
    reveal_strlit("gopls");
    assert("typescript"@[0] == 't' && "javascript"@[0] == 'j');
    assert("rust"@.len() == 4 && "python"@.len() == 6 && "typescript"@.len() == 10);
    assert("javascript"@.len() == 10 && "go"@.len() == 2);
    assert("rust-analyzer"@.len() == 13 && "pyright-langserver"@.len() == 18);
    assert("typescript-language-server"@.len() == 26 && "gopls"@.len() == 5);
}

/// The table of language servers: each language has its program and
/// arguments, and no other language has one.
pub proof fn law_language_servers(language: Seq<char>)
    ensures
        invocation("rust"@) == Some(("rust-analyzer"@, Seq::<Seq<char>>::empty())),
        invocation("python"@) == Some(("pyright-langserver"@, seq!["--stdio"@])),
        invocation("typescript"@) == Some(("typescript-language-server"@, seq!["--stdio"@])),
        invocation("javascript"@) == Some(("typescript-language-server"@, seq!["--stdio"@])),
        invocation("go"@) == Some(("gopls"@, Seq::<Seq<char>>::empty())),
        invocation(language) is Some <==> language == "rust"@ || language == "python"@ || language
            == "typescript"@ || language == "javascript"@ || language == "go"@,
{
    lemma_languages_differ();
}

/// Languages share a program only where they are the two that one server
/// speaks.
pub proof fn law_languages_share_no_program(a: Seq<char>, b: Seq<char>)
    requires
        a != b,
        invocation(a) is Some,
        invocation(b) is Some,
        invocation(a)->Some_0.0 == invocation(b)->Some_0.0,
    ensures
        a == "typescript"@ || a == "javascript"@,
        b == "typescript"@ || b == "javascript"@,
{
    lemma_languages_differ();
}

/// How the server for a language is started.
pub fn server_invocation(language: &str) -> (r: Option<ServerCommand>)
    ensures
        match r {
            Some(command) => invocation(language@) == Some(command@),
            None => invocation(language@) is None,
        },
        language@ == "rust"@ ==> starts(r, "rust-analyzer"@, Seq::empty()),
        language@ == "python"@ ==> starts(r, "pyright-langserver"@, seq!["--stdio"@]),
        language@ == "typescript"@ ==> starts(
            r,
            "typescript-language-server"@,
            seq!["--stdio"@],
        ),
        language@ == "javascript"@ ==> starts(
            r,
            "typescript-language-server"@,
            seq!["--stdio"@],
        ),
        language@ == "go"@ ==> starts(r, "gopls"@, Seq::empty()),
        language@ != "rust"@ && language@ != "python"@ && language@ != "typescript"@ && language@
            != "javascript"@ && language@ != "go"@ ==> r is None,
{
    proof {
        law_language_servers(language@);
    }
    if same_text(language, "rust") {
        Some(ServerCommand::plain("rust-analyzer"))
    } else if same_text(language, "python") {
        Some(ServerCommand::on_stdio("pyright-langserver"))
    } else if same_text(language, "typescript") || same_text(language, "javascript") {
        Some(ServerCommand::on_stdio("typescript-language-server"))
    } else if same_text(language, "go") {
        Some(ServerCommand::plain("gopls"))
    } else {
        None
    }
}

/// What the server says of itself.
pub open spec fn lspd_info(version: Seq<char>) -> JsonView {
    JsonView::Object(
        seq![
            (
                "server_info"@,
                JsonView::Object(
                    seq![
                        ("name"@, JsonView::Str("codex-lspd"@)),
                        ("version"@, JsonView::Str(version)),
                    ],
                ),
            ),
            ("protocol_version"@, JsonView::Str("0.0.0-pr-u"@)),
            (
                "supported_methods"@,
                JsonView::Array(
                    seq![
                        JsonView::Str("initialize"@),
                        JsonView::Str("lsp/start"@),
                        JsonView::Str("lsp/textDocumentDidOpen"@),
                        JsonView::Str("lsp/textDocumentDidChange"@),
                        JsonView::Str("lsp/textDocumentDidClose"@),
                        JsonView::Str("shutdown"@),
                    ],
                ),
            ),
            (
                "supported_notifications"@,
                JsonView::Array(seq![JsonView::Str("textDocument/publishDiagnostics"@)]),
            ),
        ],
    )
}

fn info_json(version: &str) -> (r: Json)
    ensures
        r@ == lspd_info(version@),
{
    let info = object2("name", Json::text("codex-lspd"), "version", Json::text(version));
    let methods = text_array(
        [
            "initialize",
            "lsp/start",
            "lsp/textDocumentDidOpen",
            "lsp/textDocumentDidChange",
            "lsp/textDocumentDidClose",
            "shutdown",
        ],
    );
    let notifications = text_array(["textDocument/publishDiagnostics"]);
    proof {
        assert(methods@->Array_0 =~= seq![
            JsonView::Str("initialize"@),
            JsonView::Str("lsp/start"@),
            JsonView::Str("lsp/textDocumentDidOpen"@),
            JsonView::Str("lsp/textDocumentDidChange"@),
            JsonView::Str("lsp/textDocumentDidClose"@),
            JsonView::Str("shutdown"@),
        ]);
        assert(notifications@->Array_0 =~= seq![JsonView::Str("textDocument/publishDiagnostics"@)]);
    }
    object4(
        "server_info",
        info,
        "protocol_version",
        Json::text("0.0.0-pr-u"),
        "supported_methods",
        methods,
        "supported_notifications",
        notifications,
    )
}

/// A field, or something in its place where it is missing.
pub open spec fn field_or(params: JsonView, key: Seq<char>, missing: JsonView) -> JsonView {
    match params.get(key) {
        Some(value) => value,
        None => missing,
    }
}

fn take_field_or(params: &Json, key: &str, missing: Json) -> (r: Json)
    ensures
        r@ == field_or(params@, key@, missing@),
{
    match params.get(key) {
        Some(value) => value.clone(),
        None => missing,
    }
}

/// The notification that a request of the parent becomes: its method and its
/// parameters. None where the method is not one that is passed on.
pub open spec fn translated(method: Seq<char>, params: JsonView) -> Option<(Seq<char>, JsonView)> {
    let document = ("textDocument"@, field_or(params, "text_document"@, JsonView::Null));
    if method == "lsp/textDocumentDidOpen"@ {
        Some(("textDocument/didOpen"@, JsonView::Object(seq![document])))
    } else if method == "lsp/textDocumentDidChange"@ {
        Some(
            (
                "textDocument/didChange"@,
                JsonView::Object(
                    seq![
                        document,
                        (
                            "contentChanges"@,
                            field_or(params, "content_changes"@, JsonView::Array(Seq::empty())),
                        ),
                    ],
                ),
            ),
        )
    } else if method == "lsp/textDocumentDidClose"@ {
        Some(("textDocument/didClose"@, JsonView::Object(seq![document])))
    } else {
        None
    }
}

/// A message for a language server.
#[derive(Debug, PartialEq, Eq)]
pub struct Forward {
    pub server_id: String,
    pub notification: Json,
}

/// What becomes of a request to pass something on.
pub open spec fn is_forwarded(
    r: Result<Forward, LspdError>,
    method: Seq<char>,
    params: JsonView,
    servers: Set<Seq<char>>,
) -> bool {
    match params.get_str("server_id"@) {
        None => r matches Err(LspdError::Other(why)) && why@ == "missing server_id"@,
        Some(server) => match translated(method, params) {
            None => r matches Err(LspdError::Other(why)) && why@
                == "unsupported forward method: "@ + method,
            Some((name, lsp_params)) => if servers.contains(server) {
                r matches Ok(f) && f.server_id@ == server && f.notification@
                    == notification_view(name, lsp_params)
            } else {
                r matches Err(LspdError::UnknownServerId(id)) && id@ == server
            },
        },
    }
}

/// The parameters of a request to start a server.
#[derive(Debug, PartialEq, Eq)]
pub struct StartParams {
    pub language: String,
    pub root_uri: Option<String>,
}

/// What to do for a request.
#[derive(Debug, PartialEq, Eq)]
pub enum LspdStep {
    /// Send this response.
    Reply(Json),
    /// Read the parameters as those of a start and hand them to `start`.
    Start,
    /// Hand the message to its server, and send what `forwarded_reply` says.
    Forward(Forward),
}

/// What to do for a request to start a server.
#[derive(Debug, PartialEq, Eq)]
pub enum StartStep {
    /// Send this response.
    Reply(Json),
    /// Start this program and shake hands with it.
    Spawn(ServerCommand),
}

/// The id of the `n`-th server.
pub open spec fn server_id_text(n: u64) -> Seq<char> {
    "srv"@ + decimal(n as nat)
}

/// The result where a server would be started but is not.
pub open spec fn deferred_result(server_id: Seq<char>, bin: Seq<char>, args: Seq<Seq<char>>) -> JsonView {
    JsonView::Object(
        seq![
            ("server_id"@, JsonView::Str(server_id)),
            (
                "would_invoke"@,
                JsonView::Object(
                    seq![("bin"@, JsonView::Str(bin)), ("args"@, args_view(args))],
                ),
            ),
            (
                "note"@,
                JsonView::Str(
                    "spawn deferred; set CODEX_LSPD_REAL_SPAWN=1 to spawn the real server"@,
                ),
            ),
        ],
    )
}

/// The result where a server was started.
pub open spec fn started_result(server_id: Seq<char>, capabilities: JsonView) -> JsonView {
    JsonView::Object(
        seq![("server_id"@, JsonView::Str(server_id)), ("capabilities"@, capabilities)],
    )
}

/// The result where a message was passed on.
pub open spec fn forwarded_result(server_id: Seq<char>) -> JsonView {
    JsonView::Object(
        seq![("forwarded"@, JsonView::Bool(true)), ("server_id"@, JsonView::Str(server_id))],
    )
}

/// The result of a shutdown.
pub open spec fn shutdown_result() -> JsonView {
    JsonView::Object(seq![("shutdown"@, JsonView::Bool(true)), ("ok"@, JsonView::Bool(true))])
}

/// Whether a method passes a message on to a server.
pub open spec fn passes_on(method: Seq<char>) -> bool {
    method == "lsp/textDocumentDidOpen"@ || method == "lsp/textDocumentDidChange"@ || method
        == "lsp/textDocumentDidClose"@
}

/// Whether `step` is what a request calls for, where the given servers run.
pub open spec fn is_step(
    step: LspdStep,
    req: LspdRequest,
    version: Seq<char>,
    servers: Set<Seq<char>>,
) -> bool {
    let id = req.id@;
    let method = req.method@;
    if method == "initialize"@ {
        step matches LspdStep::Reply(v) && v@ == response_view(id, "result"@, lspd_info(version))
    } else if method == "lsp/start"@ {
        step is Start
    } else if passes_on(method) {
        exists|f: Result<Forward, LspdError>| #[trigger]
            is_forwarded(f, method, req.params@, servers) && match f {
                Ok(forward) => step == LspdStep::Forward(forward),
                Err(err) => step matches LspdStep::Reply(v) && v@ == failure_view(id, err),
            }
    } else if method == "shutdown"@ {
        step matches LspdStep::Reply(v) && v@ == response_view(id, "result"@, shutdown_result())
    } else {
        step matches LspdStep::Reply(v) && v@ == response_view(
            id,
            "error"@,
            error_view((-32601) as i64, "method not found: "@ + method),
        )
    }
}

/// The language servers that run. `H` is what a server is reached by.
pub struct Supervisor<H> {
    next: u64,
    servers: KeyedMap<H>,
}

impl<H> Supervisor<H> {
    /// The number of the next server.
    pub closed spec fn next_number(&self) -> u64 {
        self.next
    }

    /// The servers by their ids.
    pub closed spec fn running(&self) -> Map<Seq<char>, H> {
        self.servers@
    }

    /// No server runs.
    pub fn new() -> (r: Self)
        ensures
            r.next_number() == 0,
            r.running() == Map::<Seq<char>, H>::empty(),
    {
        Supervisor { next: 0, servers: KeyedMap::new() }
    }

    /// The id for the next server. The numbers start over after the last.
    pub fn next_id(&mut self) -> (r: String)
        ensures
            r@ == server_id_text(old(self).next_number()),
            final(self).next_number() == (if old(self).next_number() == u64::MAX {
                0
            } else {
                (old(self).next_number() + 1) as u64
            }),
            final(self).running() == old(self).running(),
    {
        let n = self.next;
        self.next = if n == u64::MAX {
            0
        } else {
            n + 1
        };
        concat_text("srv", decimal_string(n).as_str())
    }

    /// Remembers how a server is reached.
    pub fn register(&mut self, server_id: &str, handle: H)
        ensures
            final(self).running() == old(self).running().insert(server_id@, handle),
            final(self).next_number() == old(self).next_number(),
    {
        self.servers.insert(server_id.to_owned(), handle);
    }

    /// How a server is reached.
    pub fn server(&self, server_id: &str) -> (r: Option<&H>)
        ensures
            match r {
                Some(h) => self.running().dom().contains(server_id@) && *h
                    == self.running()[server_id@],
                None => !self.running().dom().contains(server_id@),
            },
    {
        self.servers.get(server_id)
    }

    /// Translates a request of the parent for the server that it names.
    pub fn handle_lsp_forward(&self, method: &str, params: &Json) -> (r: Result<
        Forward,
        LspdError,
    >)
        ensures
            is_forwarded(r, method@, params@, self.running().dom()),
    {
        let server_id = match params.get_str("server_id") {
            Some(id) => id,
            None => {
                return Err(LspdError::Other("missing server_id".to_owned()));
            },
        };
        let document = take_field_or(params, "text_document", Json::Null);
        let message = if same_text(method, "lsp/textDocumentDidOpen") {
            notification("textDocument/didOpen", object1("textDocument", document))
        } else if same_text(method, "lsp/textDocumentDidChange") {
            let none: Vec<Json> = Vec::new();
            assert(crate::json::item_views(none@) =~= Seq::<JsonView>::empty());
            let changes = take_field_or(params, "content_changes", Json::Array(none));
            notification(
                "textDocument/didChange",
                object2("textDocument", document, "contentChanges", changes),
            )
        } else if same_text(method, "lsp/textDocumentDidClose") {
            notification("textDocument/didClose", object1("textDocument", document))
        } else {
            return Err(LspdError::Other(concat_text("unsupported forward method: ", method)));
        };
        if self.servers.contains_key(server_id) {
            Ok(Forward { server_id: server_id.to_owned(), notification: message })
        } else {
            Err(LspdError::UnknownServerId(server_id.to_owned()))
        }
    }

    /// Decides what a request calls for.
    pub fn handle_request(&self, req: &LspdRequest, version: &str) -> (r: LspdStep)
        ensures
            is_step(r, *req, version@, self.running().dom()),
    {
        let method = req.method.as_str();
        if same_text(method, "initialize") {
            LspdStep::Reply(response(req.id.clone(), "result", info_json(version)))
        } else if same_text(method, "lsp/start") {
            LspdStep::Start
        } else if same_text(method, "lsp/textDocumentDidOpen") || same_text(
            method,
            "lsp/textDocumentDidChange",
        ) || same_text(method, "lsp/textDocumentDidClose") {
            let made = self.handle_lsp_forward(method, &req.params);
            assert(is_forwarded(made, method@, req.params@, self.running().dom()));
            match made {
                Ok(forward) => LspdStep::Forward(forward),
                Err(err) => LspdStep::Reply(lspd_error_to_json(req.id.clone(), &err)),
            }
        } else if same_text(method, "shutdown") {
            let result = object2("shutdown", Json::Bool(true), "ok", Json::Bool(true));
            LspdStep::Reply(response(req.id.clone(), "result", result))
        } else {
            let text = concat_text("method not found: ", method);
            LspdStep::Reply(
                response(req.id.clone(), "error", error_object(-32601, text.as_str())),
            )
        }
    }

    /// Decides what a request to start a server calls for. `params` are its
    /// parameters, or why they could not be read; `real_spawn` says whether
    /// servers are started at all.
    pub fn start(&mut self, id: Json, params: &Result<StartParams, String>, real_spawn: bool) -> (r:
        StartStep)
        ensures
            final(self).running() == old(self).running(),
            match *params {
                Err(why) => {
                    &&& final(self).next_number() == old(self).next_number()
                    &&& r matches StartStep::Reply(v) && v@ == response_view(
                        id@,
                        "error"@,
                        error_view((-32603) as i64, "invalid lsp/start params: "@ + why@),
                    )
                },
                Ok(p) => match invocation(p.language@) {
                    None => {
                        &&& final(self).next_number() == old(self).next_number()
                        &&& r matches StartStep::Reply(v) && v@ == response_view(
                            id@,
                            "error"@,
                            error_view((-32602) as i64, "unknown language: "@ + p.language@),
                        )
                    },
                    Some((bin, args)) => if real_spawn {
                        &&& final(self).next_number() == old(self).next_number()
                        &&& r matches StartStep::Spawn(command) && command@ == (bin, args)
                    } else {
                        &&& final(self).next_number() == (if old(self).next_number() == u64::MAX {
                            0
                        } else {
                            (old(self).next_number() + 1) as u64
                        })
                        &&& r matches StartStep::Reply(v) && v@ == response_view(
                            id@,
                            "result"@,
                            deferred_result(server_id_text(old(self).next_number()), bin, args),
                        )
                    },
                },
            },
    {
        let p = match params {
            Ok(p) => p,
            Err(why) => {
                let err = LspdError::Other(concat_text("invalid lsp/start params: ", why.as_str()));
                return StartStep::Reply(lspd_error_to_json(id, &err));
            },
        };
        let command = match server_invocation(p.language.as_str()) {
            Some(command) => command,
            None => {
                let err = LspdError::UnknownLanguage(p.language.clone());
                return StartStep::Reply(lspd_error_to_json(id, &err));
            },
        };
        if real_spawn {
            return StartStep::Spawn(command);
        }
        let server_id = self.next_id();
        let invoke = object2("bin", Json::text(command.bin.as_str()), "args", command.args_json());
        let result = object3(
            "server_id",
            Json::text(server_id.as_str()),
            "would_invoke",
            invoke,
            "note",
            Json::text("spawn deferred; set CODEX_LSPD_REAL_SPAWN=1 to spawn the real server"),
        );
        StartStep::Reply(response(id, "result", result))
    }
}

/// The response to a start that succeeded.
pub fn started_reply(id: Json, server_id: &str, capabilities: Json) -> (r: Json)
    ensures
        r@ == response_view(id@, "result"@, started_result(server_id@, capabilities@)),
{
    response(
        id,
        "result",
        object2("server_id", Json::text(server_id), "capabilities", capabilities),
    )
}

/// The response to a message that was handed to its server, or could not be.
pub fn forwarded_reply(id: Json, server_id: &str, sent: bool) -> (r: Json)
    ensures
        sent ==> r@ == response_view(id@, "result"@, forwarded_result(server_id@)),
        !sent ==> r@ == response_view(
            id@,
            "error"@,
            error_view((-32603) as i64, "server "@ + server_id@ + " writer task is gone"@),
        ),
{
    if sent {
        response(
            id,
            "result",
            object2("forwarded", Json::Bool(true), "server_id", Json::text(server_id)),
        )
    } else {
        let mut text = concat_text("server ", server_id);
        text.append(" writer task is gone");
        response(id, "error", error_object(-32603, text.as_str()))
    }
}

/// Whether a response says that the server is to end.
pub open spec fn says_shutdown(v: JsonView) -> bool {
    match v.get("result"@) {
        Some(result) => result.get("shutdown"@) == Some(JsonView::Bool(true)),
        None => false,
    }
}

/// Whether a response says that the server is to end.
pub fn is_shutdown(v: &Json) -> (r: bool)
    ensures
        r == says_shutdown(v@),
{
    match v.get("result") {
        Some(result) => match result.get("shutdown") {
            Some(Json::Bool(b)) => *b,
            _ => false,
        },
        None => false,
    }
}

/// What the capabilities of a client are said to be.
pub open spec fn client_capabilities() -> JsonView {
    JsonView::Object(
        seq![
            (
                "workspace"@,
                JsonView::Object(
                    seq![("applyEdit"@, JsonView::Bool(false)), ("workspaceEdit"@, JsonView::Null)],
                ),
            ),
            (
                "textDocument"@,
                JsonView::Object(
                    seq![
                        (
                            "synchronization"@,
                            JsonView::Object(seq![("didSave"@, JsonView::Bool(true))]),
                        ),
                        (
                            "publishDiagnostics"@,
                            JsonView::Object(seq![("relatedInformation"@, JsonView::Bool(false))]),
                        ),
                    ],
                ),
            ),
        ],
    )
}

/// The parameters of the handshake with a language server.
pub open spec fn handshake_params(
    process_id: u32,
    root_uri: Option<Seq<char>>,
    version: Seq<char>,
) -> JsonView {
    JsonView::Object(
        seq![
            ("processId"@, JsonView::Number(JsonNumber::PosInt(process_id as u64))),
            (
                "rootUri"@,
                match root_uri {
                    Some(uri) => JsonView::Str(uri),
                    None => JsonView::Null,
                },
            ),
            ("rootPath"@, JsonView::Null),
            ("capabilities"@, client_capabilities()),
            (
                "clientInfo"@,
                JsonView::Object(
                    seq![
                        ("name"@, JsonView::Str("codex-lspd"@)),
                        ("version"@, JsonView::Str(version)),
                    ],
                ),
            ),
            ("workspaceFolders"@, JsonView::Null),
            ("trace"@, JsonView::Str("off"@)),
        ],
    )
}

/// The request that opens the handshake with a language server.
pub open spec fn handshake_view(
    process_id: u32,
    root_uri: Option<Seq<char>>,
    version: Seq<char>,
) -> JsonView {
    JsonView::Object(
        seq![
            ("jsonrpc"@, JsonView::Str("2.0"@)),
            ("id"@, JsonView::Number(JsonNumber::PosInt(1))),
            ("method"@, JsonView::Str("initialize"@)),
            ("params"@, handshake_params(process_id, root_uri, version)),
        ],
    )
}

/// The request that opens the handshake with a language server.
pub fn handshake_request(process_id: u32, root_uri: Option<&str>, version: &str) -> (r: Json)
    ensures
        r@ == handshake_view(process_id, opt_chars(root_uri), version@),
{
    let workspace = object2("applyEdit", Json::Bool(false), "workspaceEdit", Json::Null);
    let document = object2(
        "synchronization",
        object1("didSave", Json::Bool(true)),
        "publishDiagnostics",
        object1("relatedInformation", Json::Bool(false)),
    );
    let root = match root_uri {
        Some(uri) => Json::text(uri),
        None => Json::Null,
    };
    let ghost uri = opt_chars(root_uri);
    let mut fields: Vec<(String, Json)> = Vec::new();
    push_field(&mut fields, "processId", Json::Number(JsonNumber::PosInt(process_id as u64)));
    push_field(&mut fields, "rootUri", root);
    push_field(&mut fields, "rootPath", Json::Null);
    push_field(
        &mut fields,
        "capabilities",
        object2("workspace", workspace, "textDocument", document),
    );
    push_field(
        &mut fields,
        "clientInfo",
        object2("name", Json::text("codex-lspd"), "version", Json::text(version)),
    );
    push_field(&mut fields, "workspaceFolders", Json::Null);
    push_field(&mut fields, "trace", Json::text("off"));
    assert(field_views(fields@) =~= handshake_params(process_id, uri, version@)->Object_0);
    let params = Json::object(fields);
    assert(params@ == handshake_params(process_id, uri, version@));
    object4(
        "jsonrpc",
        Json::text("2.0"),
        "id",
        Json::Number(JsonNumber::PosInt(1)),
        "method",
        Json::text("initialize"),
        "params",
        params,
    )
}

/// The notification that closes the handshake.
pub fn handshake_done() -> (r: Json)
    ensures
        r@ == notification_view("initialized"@, JsonView::Object(Seq::empty())),
{
    let none: Vec<(String, Json)> = Vec::new();
    assert(field_views(none@) =~= Seq::<(Seq<char>, JsonView)>::empty());
    notification("initialized", Json::object(none))
}

/// What a message during the handshake says of the server's capabilities;
/// none where it is not the answer to the handshake.
pub open spec fn handshake_answer(v: JsonView) -> Option<JsonView> {
    if v.get("id"@) == Some(JsonView::Number(JsonNumber::PosInt(1))) {
        Some(
            match v.get("result"@) {
                Some(result) => field_or(result, "capabilities"@, JsonView::Object(Seq::empty())),
                None => JsonView::Object(Seq::empty()),
            },
        )
    } else {
        None
    }
}

/// What a message that arrives during the handshake says of the server's
/// capabilities. Notifications and requests of the server say nothing.
pub fn handshake_capabilities(v: &Json) -> (r: Option<Json>)
    ensures
        match r {
            Some(capabilities) => handshake_answer(v@) == Some(capabilities@),
            None => handshake_answer(v@) is None,
        },
{
    match v.get("id") {
        Some(Json::Number(JsonNumber::PosInt(n))) => if *n == 1 {
            let none: Vec<(String, Json)> = Vec::new();
            assert(field_views(none@) =~= Seq::<(Seq<char>, JsonView)>::empty());
            let missing = Json::object(none);
            Some(
                match v.get("result") {
                    Some(result) => take_field_or(result, "capabilities", missing),
                    None => missing,
                },
            )
        } else {
            None
        },
        _ => None,
    }
}

/// What became of the work of the handshake.
pub enum HandshakeEvent {
    /// The request was sent.
    Sent,
    /// The request could not be sent, and why.
    NotSent(String),
    /// A frame arrived.
    Frame(String),
    /// No frame could be read, and why.
    NotRead(String),
    /// The server closed its output.
    Closed,
    /// The time for the handshake is over.
    TimedOut,
}

/// What is to be done next in the handshake.
pub enum HandshakeStep {
    /// Read a frame.
    Read,
    /// The handshake is over; these are the capabilities of the server.
    Done(Json),
    /// The handshake failed.
    Fail(LspdError),
}

/// Whether a step is a failure of which `why` is said.
pub open spec fn fails_with(step: HandshakeStep, why: Seq<char>) -> bool {
    step matches HandshakeStep::Fail(LspdError::Other(s)) && s@ == why
}

/// Whether a step follows a frame that reads as `parsed`.
pub open spec fn follows_frame(
    step: HandshakeStep,
    parsed: Result<JsonView, serde_json::Error>,
) -> bool {
    match parsed {
        Err(e) => fails_with(step, "parse frame as JSON: "@ + error_text(e)),
        Ok(v) => match handshake_answer(v) {
            Some(capabilities) => step matches HandshakeStep::Done(c) && c@ == capabilities,
            None => step is Read,
        },
    }
}

/// The step behind a frame that was read as JSON or not.
pub fn handshake_frame(parsed: Result<Json, serde_json::Error>) -> (r: HandshakeStep)
    ensures
        match parsed {
            Ok(j) => follows_frame(r, Ok(j@)),
            Err(e) => follows_frame(r, Err(e)),
        },
{
    match parsed {
        Ok(v) => match handshake_capabilities(&v) {
            Some(capabilities) => HandshakeStep::Done(capabilities),
            None => HandshakeStep::Read,
        },
        Err(e) => HandshakeStep::Fail(
            LspdError::Other(concat_text("parse frame as JSON: ", describe(&e).as_str())),
        ),
    }
}

/// The next step of a handshake whose request was handed out for sending.
/// Frames are read until one answers the request.
pub fn handshake_step(event: &HandshakeEvent) -> (r: HandshakeStep)
    ensures
        match event {
            HandshakeEvent::Sent => r is Read,
            HandshakeEvent::NotSent(why) => fails_with(r, "write initialize: "@ + why@),
            HandshakeEvent::Frame(text) => follows_frame(r, parsed_text(text@)),
            HandshakeEvent::NotRead(why) => fails_with(r, "read frame: "@ + why@),
            HandshakeEvent::Closed => fails_with(
                r,
                "language server closed stdout before initialize reply"@,
            ),
            HandshakeEvent::TimedOut => fails_with(r, "initialize timed out after 30s"@),
        },
{
    match event {
        HandshakeEvent::Sent => HandshakeStep::Read,
        HandshakeEvent::NotSent(why) => HandshakeStep::Fail(
            LspdError::Other(concat_text("write initialize: ", why.as_str())),
        ),
        HandshakeEvent::Frame(text) => handshake_frame(read_text(text.as_str())),
        HandshakeEvent::NotRead(why) => HandshakeStep::Fail(
            LspdError::Other(concat_text("read frame: ", why.as_str())),
        ),
        HandshakeEvent::Closed => HandshakeStep::Fail(
            LspdError::Other("language server closed stdout before initialize reply".to_owned()),
        ),
        HandshakeEvent::TimedOut => HandshakeStep::Fail(
            LspdError::Other("initialize timed out after 30s".to_owned()),
        ),
    }
}

/// What a message of a running server is passed to the parent as; none where
/// it is not.
pub open spec fn pumped(server_id: Seq<char>, v: JsonView) -> Option<JsonView> {
    if v.get_str("method"@) == Some("textDocument/publishDiagnostics"@) {
        Some(
            notification_view(
                "textDocument/publishDiagnostics"@,
                field_or(v, "params"@, JsonView::Object(Seq::empty())).with(
                    "server_id"@,
                    JsonView::Str(server_id),
                ),
            ),
        )
    } else {
        None
    }
}

/// What a frame of a running server is passed to the parent as. A frame that
/// is not JSON gives the error of reading it.
pub fn pump_step(server_id: &str, text: &str) -> (r: Result<Option<Json>, serde_json::Error>)
    ensures
        match parsed_text(text@) {
            Ok(v) => match r {
                Ok(Some(message)) => pumped(server_id@, v) == Some(message@),
                Ok(None) => pumped(server_id@, v) is None,
                Err(_) => false,
            },
            Err(e) => r == Err::<Option<Json>, serde_json::Error>(e),
        },
{
    match read_text(text) {
        Ok(v) => Ok(pump_message(server_id, &v)),
        Err(e) => Err(e),
    }
}

/// Passes the diagnostics of a server to the parent, marked with the id of
/// the server. Other messages are dropped.
pub fn pump_message(server_id: &str, v: &Json) -> (r: Option<Json>)
    ensures
        match r {
            Some(message) => pumped(server_id@, v@) == Some(message@),
            None => pumped(server_id@, v@) is None,
        },
{
    match v.get_str("method") {
        Some(method) => if same_text(method, "textDocument/publishDiagnostics") {
            let none: Vec<(String, Json)> = Vec::new();
            assert(field_views(none@) =~= Seq::<(Seq<char>, JsonView)>::empty());
            let params = take_field_or(v, "params", Json::object(none)).with(
                "server_id",
                Json::text(server_id),
            );
            Some(notification("textDocument/publishDiagnostics", params))
        } else {
            None
        },
        None => None,
    }
}

/// Servers that are numbered differently have different ids.
pub proof fn law_server_ids_differ(a: u64, b: u64)
    requires
        a != b,
    ensures
        server_id_text(a) != server_id_text(b),
{
    let p = "srv"@;
    if server_id_text(a) == server_id_text(b) {
        assert((p + decimal(a as nat)).skip(p.len() as int) =~= decimal(a as nat));
        assert((p + decimal(b as nat)).skip(p.len() as int) =~= decimal(b as nat));
        law_decimal_injective(a as nat, b as nat);
    }
}

proof fn lemma_response_fields(id: JsonView, field: Seq<char>, content: JsonView)
    requires
        field == "result"@ || field == "error"@,
    ensures
        response_view(id, field, content).get("id"@) == Some(id),
        response_view(id, field, content).get("result"@) == (if field == "result"@ {
            Some(content)
        } else {
            None
        }),
{
    reveal_with_fuel(lookup, 4);
    reveal_strlit("jsonrpc");
    reveal_strlit("id");
    reveal_strlit("result");
    reveal_strlit("error");
    assert("jsonrpc"@.len() == 7 && "id"@.len() == 2 && "result"@.len() == 6 && "error"@.len() == 5);
    let fields = response_view(id, field, content)->Object_0;
    assert(fields.drop_first()[0] == fields[1]);
    assert(fields.drop_first().drop_first()[0] == fields[2]);
    assert(fields.drop_first().drop_first().drop_first().len() == 0);
}

/// A response that is sent for a request carries the request's id.
pub proof fn law_reply_has_request_id(
    step: LspdStep,
    req: LspdRequest,
    version: Seq<char>,
    servers: Set<Seq<char>>,
)
    requires
        is_step(step, req, version, servers),
    ensures
        step matches LspdStep::Reply(v) ==> v@.get("id"@) == Some(req.id@),
{
    if let LspdStep::Reply(v) = step {
        let fields = v@->Object_0;
        lemma_response_fields(req.id@, "result"@, lspd_info(version));
        lemma_response_fields(req.id@, "result"@, shutdown_result());
        let text = "method not found: "@ + req.method@;
        lemma_response_fields(req.id@, "error"@, error_view((-32601) as i64, text));
        if passes_on(req.method@) {
            let f = choose|f: Result<Forward, LspdError>| #[trigger]
                is_forwarded(f, req.method@, req.params@, servers) && match f {
                    Ok(forward) => step == LspdStep::Forward(forward),
                    Err(err) => step matches LspdStep::Reply(v) && v@ == failure_view(
                        req.id@,
                        err,
                    ),
                };
            let err = f->Err_0;
            lemma_response_fields(
                req.id@,
                "error"@,
                error_view(failure_code(err), failure_text(err)),
            );
        }
    }
}

proof fn lemma_no_shutdown_field(fields: Seq<(Seq<char>, JsonView)>)
    requires
        forall|i: int| 0 <= i < fields.len() ==> (#[trigger] fields[i]).0 != "shutdown"@,
    ensures
        lookup(fields, "shutdown"@) is None,
    decreases fields.len(),
{
    if fields.len() > 0 {
        assert(fields[0].0 != "shutdown"@);
        let rest = fields.drop_first();
        assert forall|i: int| 0 <= i < rest.len() implies (#[trigger] rest[i]).0 != "shutdown"@ by {
            assert(rest[i] == fields[i + 1]);
        }
        lemma_no_shutdown_field(rest);
    }
}

proof fn lemma_only_shutdown_says_so(
    id: JsonView,
    version: Seq<char>,
    server_id: Seq<char>,
    bin: Seq<char>,
    args: Seq<Seq<char>>,
    capabilities: JsonView,
    error: JsonView,
)
    ensures
        says_shutdown(response_view(id, "result"@, shutdown_result())),
        !says_shutdown(response_view(id, "result"@, lspd_info(version))),
        !says_shutdown(response_view(id, "result"@, started_result(server_id, capabilities))),
        !says_shutdown(response_view(id, "result"@, deferred_result(server_id, bin, args))),
        !says_shutdown(response_view(id, "result"@, forwarded_result(server_id))),
        !says_shutdown(response_view(id, "error"@, error)),
{
    reveal_strlit("shutdown");
    reveal_strlit("result");
    reveal_strlit("error");
    reveal_strlit("server_info");
    reveal_strlit("protocol_version");
    reveal_strlit("supported_methods");
    reveal_strlit("supported_notifications");
    reveal_strlit("server_id");
    reveal_strlit("capabilities");
    reveal_strlit("would_invoke");
    reveal_strlit("note");
    reveal_strlit("forwarded");
    assert("shutdown"@.len() == 8);
    assert("result"@.len() != "error"@.len());
    lemma_response_fields(id, "result"@, shutdown_result());
    lemma_response_fields(id, "result"@, lspd_info(version));
    lemma_response_fields(id, "result"@, started_result(server_id, capabilities));
    lemma_response_fields(id, "result"@, deferred_result(server_id, bin, args));
    lemma_response_fields(id, "result"@, forwarded_result(server_id));
    lemma_response_fields(id, "error"@, error);
    lemma_no_shutdown_field(lspd_info(version)->Object_0);
    lemma_no_shutdown_field(started_result(server_id, capabilities)->Object_0);
    lemma_no_shutdown_field(deferred_result(server_id, bin, args)->Object_0);
    lemma_no_shutdown_field(forwarded_result(server_id)->Object_0);
}

/// The server ends after a response exactly where it answers a shutdown.
pub proof fn law_ends_only_on_shutdown(
    step: LspdStep,
    req: LspdRequest,
    version: Seq<char>,
    servers: Set<Seq<char>>,
)
    requires
        is_step(step, req, version, servers),
    ensures
        step matches LspdStep::Reply(v) ==> says_shutdown(v@) == (req.method@ == "shutdown"@),
{
    if let LspdStep::Reply(v) = step {
        reveal_strlit("shutdown");
        reveal_strlit("initialize");
        reveal_strlit("lsp/start");
        reveal_strlit("lsp/textDocumentDidOpen");
        reveal_strlit("lsp/textDocumentDidChange");
        reveal_strlit("lsp/textDocumentDidClose");
        assert("shutdown"@.len() == 8);
        let none = Seq::<char>::empty();
        let text = "method not found: "@ + req.method@;
        lemma_only_shutdown_says_so(
            req.id@,
            version,
            none,
            none,
            Seq::empty(),
            JsonView::Null,
            error_view((-32601) as i64, text),
        );
        if passes_on(req.method@) {
            let f = choose|f: Result<Forward, LspdError>| #[trigger]
                is_forwarded(f, req.method@, req.params@, servers) && match f {
                    Ok(forward) => step == LspdStep::Forward(forward),
                    Err(err) => step matches LspdStep::Reply(v) && v@ == failure_view(
                        req.id@,
                        err,
                    ),
                };
            let err = f->Err_0;
            lemma_only_shutdown_says_so(
                req.id@,
                version,
                none,
                none,
                Seq::empty(),
                JsonView::Null,
                error_view(failure_code(err), failure_text(err)),
            );
        }
    }
}

/// The server goes on after the responses to a start and to a message that
/// was passed on, whatever the language server said.
pub proof fn law_goes_on_after_start(
    id: JsonView,
    server_id: Seq<char>,
    bin: Seq<char>,
    args: Seq<Seq<char>>,
    capabilities: JsonView,
    error: JsonView,
)
    ensures
        !says_shutdown(response_view(id, "result"@, started_result(server_id, capabilities))),
        !says_shutdown(response_view(id, "result"@, deferred_result(server_id, bin, args))),
        !says_shutdown(response_view(id, "result"@, forwarded_result(server_id))),
        !says_shutdown(response_view(id, "error"@, error)),
{
    lemma_only_shutdown_says_so(id, server_id, server_id, bin, args, capabilities, error);
}

/// Diagnostics reach the parent with the id of the server that they came from
/// and otherwise as they were, where their parameters are an object.
pub proof fn law_diagnostics_are_marked(server_id: Seq<char>, v: JsonView, key: Seq<char>)
    requires
        v.get_str("method"@) == Some("textDocument/publishDiagnostics"@),
        v.get("params"@) matches Some(params) && params is Object,
    ensures
        pumped(server_id, v) matches Some(m) && m.get("params"@) matches Some(params) && {
            &&& params.get("server_id"@) == Some(JsonView::Str(server_id))
            &&& key != "server_id"@ ==> params.get(key) == v.get("params"@)->Some_0.get(key)
        },
{
    reveal_with_fuel(lookup, 4);
    reveal_strlit("jsonrpc");
    reveal_strlit("method");
    reveal_strlit("params");
    assert("method"@[0] == 'm' && "params"@[0] == 'p');
    assert("jsonrpc"@.len() == 7 && "params"@.len() == 6);
    let fields = pumped(server_id, v)->Some_0->Object_0;
    assert(fields.drop_first()[0] == fields[1]);
    assert(fields.drop_first().drop_first()[0] == fields[2]);
    law_put_field(
        v.get("params"@)->Some_0->Object_0,
        "server_id"@,
        JsonView::Str(server_id),
        key,
    );
}

} // verus!
