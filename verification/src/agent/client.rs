//! The client side of a JSON-RPC conversation with an agent.
//!
//! The client gives out request messages, remembers who waits for which
//! answer and decides for each message that arrives whom it is for. Sending
//! and receiving are left to the caller.
use crate::agent::capabilities::BackendCapabilities;
use crate::agent::envelope::{
    names_of, IncomingServerNotification, KnownVariantRegistry, UnknownNotification,
};
use crate::agent::types::InitializeResponse;
use crate::json::{
    has_field, lacks_field, law_get, object1, object4, stands_first, Json, JsonView,
};
use crate::json_text::{json_line, json_string};
use crate::keyed::{entries_map, lemma_entries_dom, lemma_entries_remove, KeyedMap};
use crate::text::{concat_text, decimal, decimal_string, law_decimal_injective};
use vstd::prelude::*;

verus! {

/// The answer to a request.
#[derive(Debug, PartialEq, Eq)]
pub enum Outcome {
    /// The result, null where there was none.
    Accepted(Json),
    /// The text of the error object.
    Rejected(String),
}

/// What a message that arrived is for.
pub enum Dispatch<T> {
    /// It answers a request: hand the outcome to its waiter.
    Deliver { waiter: T, outcome: Outcome },
    /// It answers a request that nobody waits for.
    UnknownId(String),
    /// It is a notification.
    Notify(IncomingServerNotification),
    /// It is neither.
    Ignored,
}

/// What an answer says.
pub open spec fn is_outcome(o: Outcome, value: JsonView) -> bool {
    match value.get("error"@) {
        Some(err) => o matches Outcome::Rejected(e) && e@ == json_line(err),
        None => o matches Outcome::Accepted(v) && v@ == (match value.get("result"@) {
            Some(result) => result,
            None => JsonView::Null,
        }),
    }
}

/// The parameters of a message, null where there are none.
pub open spec fn params_of(value: JsonView) -> JsonView {
    match value.get("params"@) {
        Some(p) => p,
        None => JsonView::Null,
    }
}

/// Who a message is for, by its id and method and by who waits.
pub enum Routing {
    /// An answer to the request of this id.
    Answer(Seq<char>),
    /// A notification of this method.
    Notification(Seq<char>),
    /// Neither.
    Neither,
}

/// Routing where a message with an id and a method is an answer only if
/// somebody waits for that id, and a notification otherwise.
pub open spec fn routing(value: JsonView, waiting: Set<Seq<char>>) -> Routing {
    match (value.get_str("id"@), value.get_str("method"@)) {
        (Some(id), None) => Routing::Answer(id),
        (Some(id), Some(method)) => if waiting.contains(id) {
            Routing::Answer(id)
        } else {
            Routing::Notification(method)
        },
        (None, Some(method)) => Routing::Notification(method),
        (None, None) => Routing::Neither,
    }
}

/// Routing where a message with an id is always an answer.
pub open spec fn routing_by_id(value: JsonView) -> Routing {
    match (value.get_str("id"@), value.get_str("method"@)) {
        (Some(id), _) => Routing::Answer(id),
        (None, Some(method)) => Routing::Notification(method),
        (None, None) => Routing::Neither,
    }
}

/// What an answer says.
pub fn outcome_of(value: &Json) -> (r: Outcome)
    ensures
        is_outcome(r, value@),
{
    match value.get("error") {
        Some(err) => Outcome::Rejected(json_string(err)),
        None => match value.get("result") {
            Some(result) => Outcome::Accepted(result.clone()),
            None => Outcome::Accepted(Json::Null),
        },
    }
}

/// The parameters of a message.
pub fn message_params(value: &Json) -> (r: Json)
    ensures
        r@ == params_of(value@),
{
    match value.get("params") {
        Some(p) => p.clone(),
        None => Json::Null,
    }
}

/// Takes the waiter for an answer out and pairs it with what the answer says.
fn deliver_response<T>(id: &str, value: &Json, pending: &mut KeyedMap<T>) -> (r: Dispatch<T>)
    ensures
        final(pending)@ == old(pending)@.remove(id@),
        if old(pending)@.dom().contains(id@) {
            r matches Dispatch::Deliver { waiter, outcome } && waiter == old(pending)@[id@]
                && is_outcome(outcome, value@)
        } else {
            r matches Dispatch::UnknownId(unknown) && unknown@ == id@
        },
{
    match pending.remove(id) {
        Some(waiter) => Dispatch::Deliver { waiter, outcome: outcome_of(value) },
        None => Dispatch::UnknownId(id.to_owned()),
    }
}

/// Whether `r` is what becomes of a message that is routed as `route` says,
/// and `after` who still waits.
pub open spec fn is_dispatched<T>(
    r: Dispatch<T>,
    value: JsonView,
    route: Routing,
    before: Map<Seq<char>, T>,
    after: Map<Seq<char>, T>,
    known: Set<Seq<char>>,
) -> bool {
    match route {
        Routing::Answer(id) => {
            &&& after == before.remove(id)
            &&& if before.dom().contains(id) {
                r matches Dispatch::Deliver { waiter, outcome } && waiter == before[id]
                    && is_outcome(outcome, value)
            } else {
                r matches Dispatch::UnknownId(unknown) && unknown@ == id
            }
        },
        Routing::Notification(method) => {
            &&& after == before
            &&& r matches Dispatch::Notify(n) && n.is_classified(method, params_of(value), known)
        },
        Routing::Neither => after == before && r is Ignored,
    }
}

/// Decides what a message is for. A message with both an id and a method is
/// an answer where somebody waits for the id, since some servers repeat the
/// method in answers; otherwise it is shown as a notification.
pub fn dispatch_incoming<T>(
    value: &Json,
    pending: &mut KeyedMap<T>,
    registry: &KnownVariantRegistry,
) -> (r: Dispatch<T>)
    ensures
        is_dispatched(
            r,
            value@,
            routing(value@, old(pending)@.dom()),
            old(pending)@,
            final(pending)@,
            registry@,
        ),
{
    match (value.get_str("id"), value.get_str("method")) {
        (Some(id), None) => deliver_response(id, value, pending),
        (Some(id), Some(method)) => {
            if pending.contains_key(id) {
                deliver_response(id, value, pending)
            } else {
                Dispatch::Notify(
                    IncomingServerNotification::classify(method, message_params(value), registry),
                )
            }
        },
        (None, Some(method)) => Dispatch::Notify(
            IncomingServerNotification::classify(method, message_params(value), registry),
        ),
        (None, None) => Dispatch::Ignored,
    }
}

/// Decides what a message is for, where every message with an id is an answer
/// and no notification is recognised.
pub fn dispatch_by_id<T>(value: &Json, pending: &mut KeyedMap<T>) -> (r: Dispatch<T>)
    ensures
        is_dispatched(
            r,
            value@,
            routing_by_id(value@),
            old(pending)@,
            final(pending)@,
            Set::<Seq<char>>::empty(),
        ),
{
    match (value.get_str("id"), value.get_str("method")) {
        (Some(id), _) => deliver_response(id, value, pending),
        (None, Some(method)) => Dispatch::Notify(
            IncomingServerNotification::Unknown(
                UnknownNotification { method: method.to_owned(), params: message_params(value) },
            ),
        ),
        (None, None) => Dispatch::Ignored,
    }
}

/// How an agent names things on the wire.
#[derive(Debug, Clone, Copy, PartialEq, Eq, Structural)]
pub enum Dialect {
    /// An agent process: plain method names.
    Process,
    /// The Codex agent: plain method names.
    Codex,
    /// An agent whose method names stand in a namespace of their own.
    Claude,
}

/// What stands in front of the number in a request id.
pub open spec fn id_prefix(dialect: Dialect) -> Seq<char> {
    match dialect {
        Dialect::Claude => "c"@,
        _ => "r"@,
    }
}

/// The id of the `n`-th request.
pub open spec fn request_id(dialect: Dialect, n: nat) -> Seq<char> {
    id_prefix(dialect) + decimal(n)
}

/// A request message.
pub open spec fn request_message(id: Seq<char>, method: Seq<char>, params: JsonView) -> JsonView {
    JsonView::Object(
        seq![
            ("jsonrpc"@, JsonView::Str("2.0"@)),
            ("id"@, JsonView::Str(id)),
            ("method"@, JsonView::Str(method)),
            ("params"@, params),
        ],
    )
}

/// Builds a request message.
pub fn build_request(id: &str, method: &str, params: Json) -> (r: Json)
    ensures
        r@ == request_message(id@, method@, params@),
{
    object4(
        "jsonrpc",
        Json::text("2.0"),
        "id",
        Json::text(id),
        "method",
        Json::text(method),
        "params",
        params,
    )
}

/// What a client asks of an agent.
#[derive(Debug, Clone, Copy, PartialEq, Eq, Structural)]
pub enum Call {
    Initialize,
    Submit,
    Interrupt,
    Shutdown,
}

/// The plain method name of a call.
pub open spec fn call_name(call: Call) -> Seq<char> {
    match call {
        Call::Initialize => "initialize"@,
        Call::Submit => "submit"@,
        Call::Interrupt => "interrupt"@,
        Call::Shutdown => "shutdown"@,
    }
}

/// The method name of a call on the wire, behind the agent's namespace.
pub fn wire_method(namespace: &str, call: Call) -> (r: String)
    ensures
        r@ == namespace@ + call_name(call),
{
    let name = match call {
        Call::Initialize => "initialize",
        Call::Submit => "submit",
        Call::Interrupt => "interrupt",
        Call::Shutdown => "shutdown",
    };
    concat_text(namespace, name)
}

/// The parameters of an interrupt.
pub fn interrupt_params(turn_id: &str) -> (r: Json)
    ensures
        r@ == JsonView::Object(seq![("turn_id"@, JsonView::Str(turn_id@))]),
{
    object1("turn_id", Json::text(turn_id))
}

/// Whether `list` holds the waiters of `ids`, in order, and `ids` lists every
/// id that is waited for once.
pub open spec fn are_listed<T>(
    list: Seq<T>,
    ids: Seq<Seq<char>>,
    waiting: Map<Seq<char>, T>,
) -> bool {
    &&& ids.no_duplicates()
    &&& forall|id: Seq<char>| #[trigger] ids.contains(id) <==> waiting.dom().contains(id)
    &&& list.len() == ids.len()
    &&& forall|i: int| 0 <= i < list.len() ==> #[trigger] list[i] == waiting[ids[i]]
}

/// Whether `list` holds whoever waits, each once for each answer waited for.
pub open spec fn are_waiters<T>(list: Seq<T>, waiting: Map<Seq<char>, T>) -> bool {
    exists|ids: Seq<Seq<char>>| #[trigger] are_listed(list, ids, waiting)
}

/// The client's side of a conversation. `T` is whoever waits for an answer.
pub struct AgentClient<T> {
    dialect: Dialect,
    namespace: String,
    ended: bool,
    pending: KeyedMap<T>,
    capabilities: BackendCapabilities,
    issued: u64,
    registry: KnownVariantRegistry,
}

impl<T> AgentClient<T> {
    /// How the agent names things.
    pub closed spec fn speaks(&self) -> Dialect {
        self.dialect
    }

    /// What stands in front of the agent's method names.
    pub closed spec fn namespace(&self) -> Seq<char> {
        self.namespace@
    }

    /// Whether the conversation is over.
    pub closed spec fn ended(&self) -> bool {
        self.ended
    }

    /// Who waits for which answer.
    pub closed spec fn waiting(&self) -> Map<Seq<char>, T> {
        self.pending@
    }

    /// How many requests were made.
    pub closed spec fn count(&self) -> u64 {
        self.issued
    }

    /// The methods that are recognised.
    pub closed spec fn known(&self) -> Set<Seq<char>> {
        self.registry@
    }

    /// What was agreed on.
    pub closed spec fn agreed(&self) -> BackendCapabilities {
        self.capabilities
    }

    /// A client that has not said anything. `namespace` stands in front of
    /// the method names of the requests; it is empty for plain names.
    pub fn new(dialect: Dialect, namespace: &str, registry: KnownVariantRegistry) -> (r: Self)
        ensures
            r.speaks() == dialect,
            r.namespace() == namespace@,
            !r.ended(),
            r.waiting() == Map::<Seq<char>, T>::empty(),
            r.count() == 0,
            r.known() == registry@,
            r.agreed()@.protocol_version is None,
            r.agreed()@.supported_methods == Seq::<Seq<char>>::empty(),
            r.agreed()@.supported_notifications == Seq::<Seq<char>>::empty(),
    {
        AgentClient {
            dialect,
            namespace: namespace.to_owned(),
            ended: false,
            pending: KeyedMap::new(),
            capabilities: BackendCapabilities::default(),
            issued: 0,
            registry,
        }
    }

    /// How many requests were made.
    pub fn issued(&self) -> (r: u64)
        ensures
            r == self.count(),
    {
        self.issued
    }

    /// The message of a new request; `waiter` waits for its answer. Once the
    /// conversation is over there is none, and nobody waits.
    pub fn request(&mut self, call: Call, params: Json, waiter: T) -> (r: Option<Json>)
        requires
            old(self).ended() || old(self).count() < u64::MAX,
        ensures
            final(self).speaks() == old(self).speaks(),
            final(self).namespace() == old(self).namespace(),
            final(self).ended() == old(self).ended(),
            final(self).known() == old(self).known(),
            final(self).agreed() == old(self).agreed(),
            match r {
                Some(message) => {
                    &&& !old(self).ended()
                    &&& final(self).count() == old(self).count() + 1
                    &&& message@ == request_message(
                        request_id(old(self).speaks(), (old(self).count() + 1) as nat),
                        old(self).namespace() + call_name(call),
                        params@,
                    )
                    &&& final(self).waiting() == old(self).waiting().insert(
                        request_id(old(self).speaks(), (old(self).count() + 1) as nat),
                        waiter,
                    )
                },
                None => {
                    &&& old(self).ended()
                    &&& final(self).count() == old(self).count()
                    &&& final(self).waiting() == old(self).waiting()
                },
            },
    {
        if self.ended {
            return None;
        }
        self.issued = self.issued + 1;
        let prefix = match self.dialect {
            Dialect::Claude => "c",
            _ => "r",
        };
        let id = concat_text(prefix, decimal_string(self.issued).as_str());
        let method = wire_method(self.namespace.as_str(), call);
        let message = build_request(id.as_str(), method.as_str(), params);
        self.pending.insert(id, waiter);
        Some(message)
    }

    /// Ends the conversation and gives back everyone who still waits: their
    /// answers will not come.
    pub fn close(&mut self) -> (r: Vec<T>)
        ensures
            final(self).speaks() == old(self).speaks(),
            final(self).namespace() == old(self).namespace(),
            final(self).ended(),
            final(self).known() == old(self).known(),
            final(self).agreed() == old(self).agreed(),
            final(self).count() == old(self).count(),
            final(self).waiting() == Map::<Seq<char>, T>::empty(),
            are_waiters(r@, old(self).waiting()),
    {
        self.ended = true;
        let mut entries = self.pending.drain();
        let ghost all = entries@;
        let ghost ids = Seq::new(all.len(), |i: int| all[i].0@);
        let mut waiters: Vec<T> = Vec::new();
        while entries.len() > 0
            invariant
                entries.len() + waiters.len() == all.len(),
                entries@ == all.take(entries@.len() as int),
                forall|i: int|
                    0 <= i < waiters.len() ==> #[trigger] waiters@[i] == all[all.len() - 1 - i].1,
            decreases entries.len(),
        {
            let ghost n = entries@.len();
            if let Some((_, waiter)) = entries.pop() {
                assert(all[n - 1].1 == waiter);
                waiters.push(waiter);
            }
            assert(entries@ =~= all.take(n - 1));
        }
        proof {
            let back = ids.reverse();
            assert forall|i: int, j: int|
                0 <= i < back.len() && 0 <= j < back.len() && i != j implies back[i] != back[j] by {
                let a = all.len() - 1 - i;
                let b = all.len() - 1 - j;
                assert(back[i] == all[a].0@ && back[j] == all[b].0@);
                if a < b {
                    assert(all[a].0@ != all[b].0@);
                } else {
                    assert(all[b].0@ != all[a].0@);
                }
            }
            assert forall|id: Seq<char>| back.contains(id) <==> entries_map(all).dom().contains(
                id,
            ) by {
                lemma_entries_dom(all, id);
                if back.contains(id) {
                    let w = choose|w: int| 0 <= w < back.len() && back[w] == id;
                    assert(all[all.len() - 1 - w].0@ == id);
                }
                if exists|i: int| 0 <= i < all.len() && (#[trigger] all[i]).0@ == id {
                    let w = choose|w: int| 0 <= w < all.len() && (#[trigger] all[w]).0@ == id;
                    assert(back[all.len() - 1 - w] == id);
                }
            }
            assert forall|i: int| 0 <= i < back.len() implies #[trigger] waiters@[i]
                == entries_map(all)[back[i]] by {
                lemma_entries_remove(all, all.len() - 1 - i);
            }
            assert(are_listed(waiters@, back, old(self).waiting()));
        }
        waiters
    }

    /// Decides what a message that arrived is for.
    pub fn dispatch(&mut self, value: &Json) -> (r: Dispatch<T>)
        ensures
            final(self).speaks() == old(self).speaks(),
            final(self).namespace() == old(self).namespace(),
            final(self).ended() == old(self).ended(),
            final(self).known() == old(self).known(),
            final(self).agreed() == old(self).agreed(),
            final(self).count() == old(self).count(),
            old(self).speaks() is Process ==> is_dispatched(
                r,
                value@,
                routing_by_id(value@),
                old(self).waiting(),
                final(self).waiting(),
                Set::<Seq<char>>::empty(),
            ),
            !(old(self).speaks() is Process) ==> is_dispatched(
                r,
                value@,
                routing(value@, old(self).waiting().dom()),
                old(self).waiting(),
                final(self).waiting(),
                old(self).known(),
            ),
    {
        match self.dialect {
            Dialect::Process => dispatch_by_id(value, &mut self.pending),
            _ => dispatch_incoming(value, &mut self.pending, &self.registry),
        }
    }

    /// Remembers what the server's side of the handshake said.
    pub fn initialized(&mut self, resp: &InitializeResponse)
        ensures
            final(self).speaks() == old(self).speaks(),
            final(self).namespace() == old(self).namespace(),
            final(self).ended() == old(self).ended(),
            final(self).known() == old(self).known(),
            final(self).waiting() == old(self).waiting(),
            final(self).count() == old(self).count(),
            final(self).agreed()@.protocol_version == crate::agent::capabilities::opt_text(
                resp.protocol_version,
            ),
            final(self).agreed()@.supported_methods == crate::agent::capabilities::texts(
                resp.supported_methods@,
            ),
            final(self).agreed()@.supported_notifications == crate::agent::capabilities::texts(
                resp.supported_notifications@,
            ),
    {
        self.capabilities = BackendCapabilities::of_response(resp);
    }

    /// What was agreed on.
    pub fn capabilities(&self) -> (r: &BackendCapabilities)
        ensures
            *r == self.agreed(),
    {
        &self.capabilities
    }

    /// The methods that are recognised.
    pub fn registry(&self) -> (r: &KnownVariantRegistry)
        ensures
            r@ == self.known(),
    {
        &self.registry
    }
}

/// The Codex agent.
pub struct CodexBackend;

impl CodexBackend {
    /// The notifications that the Codex agent is known to emit.
    pub fn default_registry() -> (r: KnownVariantRegistry)
        ensures
            r@ == set!["agent/message_delta"@, "agent/turn_completed"@],
    {
        let r = KnownVariantRegistry::new().with_methods(
            ["agent/message_delta", "agent/turn_completed"],
        );
        assert(r@ =~= set!["agent/message_delta"@, "agent/turn_completed"@]) by {
            let names = names_of(["agent/message_delta", "agent/turn_completed"]@);
            assert(names[0] == "agent/message_delta"@);
            assert(names[1] == "agent/turn_completed"@);
        }
        r
    }
}

/// An agent whose method names stand in a namespace of their own.
pub struct ClaudeBackend;

impl ClaudeBackend {
    /// The notifications that the agent is known to emit, behind its
    /// namespace.
    pub fn default_registry(namespace: &str) -> (r: KnownVariantRegistry)
        ensures
            r@ == set![
                namespace@ + "message_delta"@,
                namespace@ + "turn_completed"@,
                namespace@ + "content_block_delta"@,
            ],
    {
        KnownVariantRegistry::new().with_method(
            concat_text(namespace, "message_delta").as_str(),
        ).with_method(concat_text(namespace, "turn_completed").as_str()).with_method(
            concat_text(namespace, "content_block_delta").as_str(),
        )
    }
}

/// Different requests have different ids.
pub proof fn law_request_ids_differ(dialect: Dialect, a: nat, b: nat)
    requires
        a != b,
    ensures
        request_id(dialect, a) != request_id(dialect, b),
{
    let p = id_prefix(dialect);
    if request_id(dialect, a) == request_id(dialect, b) {
        assert((p + decimal(a)).skip(p.len() as int) =~= decimal(a));
        assert((p + decimal(b)).skip(p.len() as int) =~= decimal(b));
        law_decimal_injective(a, b);
    }
}

/// The answer to a request reaches whoever waits for it, and nobody waits for
/// it afterwards, whether or not the answer repeats the method.
pub proof fn law_answer_reaches_waiter<T>(
    before: Map<Seq<char>, T>,
    id: Seq<char>,
    waiter: T,
    value: JsonView,
    r: Dispatch<T>,
    after: Map<Seq<char>, T>,
    known: Set<Seq<char>>,
)
    requires
        value.get_str("id"@) == Some(id),
        ({
            let waiting = before.insert(id, waiter);
            is_dispatched(r, value, routing(value, waiting.dom()), waiting, after, known)
                || is_dispatched(r, value, routing_by_id(value), waiting, after, known)
        }),
    ensures
        r matches Dispatch::Deliver { waiter: w, outcome } && w == waiter && is_outcome(
            outcome,
            value,
        ),
        after == before.remove(id),
{
    assert(before.insert(id, waiter).remove(id) =~= before.remove(id));
}

/// A message with a method and no id is never lost: it becomes a notification
/// with its method and parameters, recognised or not.
pub proof fn law_notification_survives<T>(
    value: JsonView,
    method: Seq<char>,
    r: Dispatch<T>,
    before: Map<Seq<char>, T>,
    after: Map<Seq<char>, T>,
    known: Set<Seq<char>>,
)
    requires
        value.get_str("id"@) is None,
        value.get_str("method"@) == Some(method),
        is_dispatched(r, value, routing(value, before.dom()), before, after, known)
            || is_dispatched(r, value, routing_by_id(value), before, after, known),
    ensures
        r matches Dispatch::Notify(n) && n.method_text() == method && n.params_view() == params_of(
            value,
        ),
        after == before,
{
}

/// An answer with an error is a rejection with the text of the error object,
/// whatever else it holds; another is the acceptance of its result, null where
/// it has none.
pub proof fn law_outcome(o: Outcome, value: JsonView, error: JsonView, result: JsonView)
    requires
        is_outcome(o, value),
    ensures
        has_field(value, "error"@, error) ==> (o matches Outcome::Rejected(text) && text@
            == json_line(error)),
        lacks_field(value, "error"@) && has_field(value, "result"@, result) ==> (
        o matches Outcome::Accepted(v) && v@ == result),
        lacks_field(value, "error"@) && lacks_field(value, "result"@) ==> (
        o matches Outcome::Accepted(v) && v@ == JsonView::Null),
{
    law_get(value, "error"@, error);
    law_get(value, "result"@, result);
}

/// Where a message that arrives goes: the answer to a request, with or without
/// a method, to whoever waits for it, and to nobody else; an answer that
/// nobody waits for is reported by its id; a notification is shown with its
/// method and parameters, known exactly where the registry has it, and
/// changes nothing for those who wait; anything else is ignored.
pub proof fn law_dispatch<T>(
    r: Dispatch<T>,
    value: JsonView,
    before: Map<Seq<char>, T>,
    after: Map<Seq<char>, T>,
    known: Set<Seq<char>>,
    id: Seq<char>,
    method: Seq<char>,
    params: JsonView,
)
    requires
        is_dispatched(r, value, routing(value, before.dom()), before, after, known),
    ensures
        has_field(value, "id"@, JsonView::Str(id)) && before.dom().contains(id) ==> (
        r matches Dispatch::Deliver { waiter, outcome } && waiter == before[id] && is_outcome(
            outcome,
            value,
        )) && !after.dom().contains(id) && after == before.remove(id),
        has_field(value, "id"@, JsonView::Str(id)) && !before.dom().contains(id) && lacks_field(
            value,
            "method"@,
        ) ==> (r matches Dispatch::UnknownId(unknown) && unknown@ == id) && after == before,
        has_field(value, "method"@, JsonView::Str(method)) && (lacks_field(value, "id"@) || (
        has_field(value, "id"@, JsonView::Str(id)) && !before.dom().contains(id))) ==> (
        r matches Dispatch::Notify(n) && n.method_text() == method && (n is Known
            <==> known.contains(method)) && (has_field(value, "params"@, params)
            ==> n.params_view() == params) && (lacks_field(value, "params"@) ==> n.params_view()
            == JsonView::Null)) && after == before,
        lacks_field(value, "id"@) && lacks_field(value, "method"@) ==> r is Ignored && after
            == before,
{
    law_get(value, "id"@, JsonView::Str(id));
    law_get(value, "method"@, JsonView::Str(method));
    law_get(value, "params"@, params);
    if !before.dom().contains(id) {
        assert(before.remove(id) =~= before);
    }
}

/// Where a message goes of a process whose messages with an id are all
/// answers.
pub proof fn law_dispatch_by_id<T>(
    r: Dispatch<T>,
    value: JsonView,
    before: Map<Seq<char>, T>,
    after: Map<Seq<char>, T>,
    id: Seq<char>,
    method: Seq<char>,
    params: JsonView,
)
    requires
        is_dispatched(r, value, routing_by_id(value), before, after, Set::<Seq<char>>::empty()),
    ensures
        has_field(value, "id"@, JsonView::Str(id)) && before.dom().contains(id) ==> (
        r matches Dispatch::Deliver { waiter, outcome } && waiter == before[id] && is_outcome(
            outcome,
            value,
        )) && after == before.remove(id),
        has_field(value, "id"@, JsonView::Str(id)) && !before.dom().contains(id) ==> (
        r matches Dispatch::UnknownId(unknown) && unknown@ == id) && after == before,
        has_field(value, "method"@, JsonView::Str(method)) && lacks_field(value, "id"@) ==> (
        r matches Dispatch::Notify(n) && n is Unknown && n.method_text() == method && (has_field(
            value,
            "params"@,
            params,
        ) ==> n.params_view() == params) && (lacks_field(value, "params"@) ==> n.params_view()
            == JsonView::Null)) && after == before,
        lacks_field(value, "id"@) && lacks_field(value, "method"@) ==> r is Ignored && after
            == before,
{
    law_get(value, "id"@, JsonView::Str(id));
    law_get(value, "method"@, JsonView::Str(method));
    law_get(value, "params"@, params);
    if !before.dom().contains(id) {
        assert(before.remove(id) =~= before);
    }
}

/// A request holds the protocol, its id, its method and its parameters, so
/// that an answer with its id is one that somebody waits for.
pub proof fn law_request_shape(id: Seq<char>, method: Seq<char>, params: JsonView)
    ensures
        has_field(request_message(id, method, params), "jsonrpc"@, JsonView::Str("2.0"@)),
        has_field(request_message(id, method, params), "id"@, JsonView::Str(id)),
        has_field(request_message(id, method, params), "method"@, JsonView::Str(method)),
        has_field(request_message(id, method, params), "params"@, params),
{
    reveal_strlit("jsonrpc");
    reveal_strlit("id");
    reveal_strlit("method");
    reveal_strlit("params");
    assert("jsonrpc"@.len() == 7 && "id"@.len() == 2);
    assert("method"@.len() == 6 && "params"@.len() == 6);
    assert("method"@[0] == 'm' && "params"@[0] == 'p');
    let fields = request_message(id, method, params)->Object_0;
    assert(stands_first(fields, "jsonrpc"@, 0));
    assert(stands_first(fields, "id"@, 1));
    assert(stands_first(fields, "method"@, 2));
    assert(stands_first(fields, "params"@, 3));
}

/// The names of the calls and what request ids look like.
pub proof fn law_wire_names(n: nat)
    ensures
        call_name(Call::Initialize) == "initialize"@,
        call_name(Call::Submit) == "submit"@,
        call_name(Call::Interrupt) == "interrupt"@,
        call_name(Call::Shutdown) == "shutdown"@,
        request_id(Dialect::Claude, n) == "c"@ + decimal(n),
        request_id(Dialect::Codex, n) == "r"@ + decimal(n),
        request_id(Dialect::Process, n) == "r"@ + decimal(n),
{
}

/// When a conversation ends, everybody who waits is told, each once for each
/// answer waited for, and nobody else.
pub proof fn law_everyone_is_told<T>(
    list: Seq<T>,
    waiting: Map<Seq<char>, T>,
    id: Seq<char>,
    i: int,
)
    requires
        are_waiters(list, waiting),
    ensures
        waiting.dom().contains(id) ==> list.contains(waiting[id]),
        waiting.dom().finite(),
        list.len() == waiting.dom().len(),
        0 <= i < list.len() ==> exists|k: Seq<char>|
            waiting.dom().contains(k) && #[trigger] waiting[k] == list[i],
{
    let ids = choose|ids: Seq<Seq<char>>| #[trigger] are_listed(list, ids, waiting);
    if waiting.dom().contains(id) {
        assert(ids.contains(id));
        let w = choose|w: int| 0 <= w < ids.len() && ids[w] == id;
        assert(list[w] == waiting[ids[w]]);
    }
    assert(ids.to_set() =~= waiting.dom()) by {
        assert forall|x: Seq<char>| ids.to_set().contains(x) <==> waiting.dom().contains(x) by {
            assert(ids.contains(x) <==> waiting.dom().contains(x));
        }
    }
    ids.unique_seq_to_set();
    vstd::seq_lib::seq_to_set_is_finite(ids);
    if 0 <= i < list.len() {
        assert(ids.contains(ids[i]));
        assert(waiting.dom().contains(ids[i]));
        assert(waiting[ids[i]] == list[i]);
    }
}

} // verus!
