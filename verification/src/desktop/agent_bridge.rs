//! The bridge between the user interface and the agent process.
//!
//! The supervisor decides what a prompt or a notification leads to; carrying
//! it out (the turn log, the agent, the user interface) is left to the
//! caller. Actions are carried out in order. Where an event cannot be handed
//! to the user interface any more, the rest is dropped and the bridge ends.
use crate::agent::envelope::IncomingServerNotification;
use crate::agent::types::{ClientInfo, InitializeParams, Submission, SubmissionId, ThreadId};
use crate::json::{has_field, lacks_field, law_get, object1, Json, JsonView};
use crate::json_text::{json_line, json_string};
use crate::text::{
    concat_text, decimal, decimal_string, law_decimal_injective, law_starts_and_ends, same_text,
    starts_with, text_starts,
};
use vstd::prelude::*;

verus! {

/// What the user interface is told.
#[derive(Debug, Clone, PartialEq, Eq)]
pub enum BridgeEvent {
    /// A piece of the agent's message.
    MessageDelta { text: String },
    /// The turn is over.
    TurnCompleted { stop_reason: String },
    /// The agent has gone.
    AgentClosed,
}

/// The content of a [`BridgeEvent`].
pub enum EventContent {
    MessageDelta(Seq<char>),
    TurnCompleted(Seq<char>),
    AgentClosed,
}

impl View for BridgeEvent {
    type V = EventContent;

    open spec fn view(&self) -> EventContent {
        match self {
            BridgeEvent::MessageDelta { text } => EventContent::MessageDelta(text@),
            BridgeEvent::TurnCompleted { stop_reason } => EventContent::TurnCompleted(
                stop_reason@,
            ),
            BridgeEvent::AgentClosed => EventContent::AgentClosed,
        }
    }
}

/// The text of a field, or a default.
pub open spec fn text_or(params: JsonView, key: Seq<char>, default: Seq<char>) -> Seq<char> {
    match params.get_str(key) {
        Some(s) => s,
        None => default,
    }
}

/// What a notification means to the user interface, if anything.
pub open spec fn event_of(method: Seq<char>, params: JsonView) -> Option<EventContent> {
    if method == "agent/message_delta"@ {
        Some(EventContent::MessageDelta(text_or(params, "delta"@, Seq::empty())))
    } else if method == "agent/turn_completed"@ {
        Some(EventContent::TurnCompleted(text_or(params, "stop_reason"@, "unknown"@)))
    } else {
        None
    }
}

/// The text of a field, or a default.
fn field_text(params: &Json, key: &str, default: &str) -> (r: String)
    ensures
        r@ == text_or(params@, key@, default@),
{
    match params.get_str(key) {
        Some(s) => s.to_owned(),
        None => default.to_owned(),
    }
}

/// What a notification means to the user interface, if anything.
pub fn classify_notification(notification: &IncomingServerNotification) -> (r: Option<BridgeEvent>)
    ensures
        match r {
            Some(e) => event_of(notification.method_text(), notification.params_view()) == Some(e@),
            None => event_of(notification.method_text(), notification.params_view()) is None,
        },
{
    let method = notification.method();
    let params = notification.params();
    if same_text(method, "agent/message_delta") {
        proof {
            reveal_strlit("");
            assert(""@ =~= Seq::<char>::empty());
        }
        Some(BridgeEvent::MessageDelta { text: field_text(params, "delta", "") })
    } else if same_text(method, "agent/turn_completed") {
        Some(BridgeEvent::TurnCompleted { stop_reason: field_text(params, "stop_reason", "unknown") })
    } else {
        None
    }
}

/// Something to be done.
#[derive(Debug, PartialEq, Eq)]
pub enum BridgeAction {
    /// Log the user's prompt under a turn.
    RecordUserOp { turn_id: String, prompt: String },
    /// Hand a submission to the agent.
    Submit(Submission),
    /// Log a notification under a turn.
    RecordNotification { turn_id: String, method: String, params_json: String },
    /// Tell the user interface.
    Emit(BridgeEvent),
    /// Close the log of the turn.
    CompleteTurn,
}

/// The content of a [`BridgeAction`].
pub enum ActionView {
    RecordUserOp { turn_id: Seq<char>, prompt: Seq<char> },
    Submit { id: Seq<char>, thread_id: Seq<char>, payload: JsonView },
    RecordNotification { turn_id: Seq<char>, method: Seq<char>, params_json: Seq<char> },
    Emit(EventContent),
    CompleteTurn,
}

impl View for BridgeAction {
    type V = ActionView;

    open spec fn view(&self) -> ActionView {
        match self {
            BridgeAction::RecordUserOp { turn_id, prompt } => ActionView::RecordUserOp {
                turn_id: turn_id@,
                prompt: prompt@,
            },
            BridgeAction::Submit(s) => ActionView::Submit {
                id: s.id.0@,
                thread_id: s.thread_id.0@,
                payload: s.payload@,
            },
            BridgeAction::RecordNotification { turn_id, method, params_json } => {
                ActionView::RecordNotification {
                    turn_id: turn_id@,
                    method: method@,
                    params_json: params_json@,
                }
            },
            BridgeAction::Emit(e) => ActionView::Emit(e@),
            BridgeAction::CompleteTurn => ActionView::CompleteTurn,
        }
    }
}

/// The contents of a run of actions.
pub open spec fn action_views(s: Seq<BridgeAction>) -> Seq<ActionView> {
    Seq::new(s.len(), |i: int| s[i]@)
}

/// The id of the `n`-th submission.
pub open spec fn submission_id(n: nat) -> Seq<char> {
    "s"@ + decimal(n)
}

/// The submission of a prompt.
pub open spec fn submission_of(n: nat, prompt: Seq<char>) -> ActionView {
    ActionView::Submit {
        id: submission_id(n),
        thread_id: "default"@,
        payload: JsonView::Object(seq![("text"@, JsonView::Str(prompt))]),
    }
}

/// What the `n`-th prompt leads to.
pub open spec fn prompt_actions(n: nat, prompt: Seq<char>, logging: bool) -> Seq<ActionView> {
    if logging {
        seq![
            ActionView::RecordUserOp { turn_id: submission_id(n), prompt },
            submission_of(n, prompt),
        ]
    } else {
        seq![submission_of(n, prompt)]
    }
}

/// Whether a notification belongs in the turn log.
pub open spec fn is_logged(method: Seq<char>) -> bool {
    text_starts(method, "agent/"@)
}

/// The turn that a notification is logged under: the latest submission, or a
/// name of its own before the first.
pub open spec fn turn_of(current: Option<Seq<char>>) -> Seq<char> {
    match current {
        Some(id) => id,
        None => "preboot"@,
    }
}

/// What a notification leads to.
pub open spec fn notification_actions(
    method: Seq<char>,
    params: JsonView,
    current: Option<Seq<char>>,
    logging: bool,
) -> Seq<ActionView> {
    let record = if is_logged(method) && logging {
        seq![
            ActionView::RecordNotification {
                turn_id: turn_of(current),
                method,
                params_json: json_line(params),
            },
        ]
    } else {
        Seq::empty()
    };
    let emit = match event_of(method, params) {
        Some(e) => seq![ActionView::Emit(e)],
        None => Seq::empty(),
    };
    let complete = if method == "agent/turn_completed"@ && logging {
        seq![ActionView::CompleteTurn]
    } else {
        Seq::empty()
    };
    record + emit + complete
}

/// The turn that is current after a notification.
pub open spec fn turn_after(method: Seq<char>, current: Option<Seq<char>>) -> Option<Seq<char>> {
    if method == "agent/turn_completed"@ {
        None
    } else {
        current
    }
}

/// The state of the bridge.
pub struct Supervisor {
    submitted: u64,
    current: Option<String>,
    logging: bool,
}

impl Supervisor {
    /// How many prompts were submitted.
    pub closed spec fn count(&self) -> u64 {
        self.submitted
    }

    /// The id of the current turn, if any.
    pub closed spec fn turn(&self) -> Option<Seq<char>> {
        match self.current {
            Some(s) => Some(s@),
            None => None,
        }
    }

    /// Whether turns are logged.
    pub closed spec fn logs(&self) -> bool {
        self.logging
    }

    /// A bridge before its first prompt. `logging` says whether the turn log
    /// could be set up.
    pub fn new(logging: bool) -> (r: Supervisor)
        ensures
            r.count() == 0,
            r.turn() is None,
            r.logs() == logging,
    {
        Supervisor { submitted: 0, current: None, logging }
    }

    /// How many prompts were submitted.
    pub fn submitted(&self) -> (r: u64)
        ensures
            r == self.count(),
    {
        self.submitted
    }

    /// What the client says of itself in the handshake.
    pub fn hello(version: &str) -> (r: InitializeParams)
        ensures
            r.client_info.name@ == "codex-desktop"@,
            r.client_info.version@ == version@,
            r.protocol_version is None,
            r.supported_methods@.len() == 0,
    {
        InitializeParams {
            client_info: ClientInfo {
                name: "codex-desktop".to_owned(),
                version: version.to_owned(),
            },
            protocol_version: None,
            supported_methods: Vec::new(),
        }
    }

    /// The user sent a prompt.
    pub fn on_prompt(&mut self, prompt: &str) -> (r: Vec<BridgeAction>)
        requires
            old(self).count() < u64::MAX,
        ensures
            action_views(r@) == prompt_actions(
                (old(self).count() + 1) as nat,
                prompt@,
                old(self).logs(),
            ),
            final(self).count() == old(self).count() + 1,
            final(self).turn() == Some(submission_id((old(self).count() + 1) as nat)),
            final(self).logs() == old(self).logs(),
    {
        self.submitted = self.submitted + 1;
        let id = concat_text("s", decimal_string(self.submitted).as_str());
        let mut out: Vec<BridgeAction> = Vec::new();
        if self.logging {
            out.push(
                BridgeAction::RecordUserOp { turn_id: id.clone(), prompt: prompt.to_owned() },
            );
        }
        self.current = Some(id.clone());
        let submission = Submission {
            id: SubmissionId(id),
            thread_id: ThreadId("default".to_owned()),
            payload: object1("text", Json::text(prompt)),
        };
        out.push(BridgeAction::Submit(submission));
        assert(action_views(out@) =~= prompt_actions(
            self.submitted as nat,
            prompt@,
            old(self).logging,
        ));
        out
    }

    /// The agent sent a notification.
    pub fn on_notification(&mut self, notification: &IncomingServerNotification) -> (r: Vec<
        BridgeAction,
    >)
        ensures
            action_views(r@) == notification_actions(
                notification.method_text(),
                notification.params_view(),
                old(self).turn(),
                old(self).logs(),
            ),
            final(self).turn() == turn_after(notification.method_text(), old(self).turn()),
            final(self).count() == old(self).count(),
            final(self).logs() == old(self).logs(),
    {
        let method = notification.method();
        let mut out: Vec<BridgeAction> = Vec::new();
        if starts_with(method, "agent/") && self.logging {
            let turn_id = match &self.current {
                Some(id) => id.clone(),
                None => "preboot".to_owned(),
            };
            out.push(
                BridgeAction::RecordNotification {
                    turn_id,
                    method: method.to_owned(),
                    params_json: json_string(notification.params()),
                },
            );
        }
        if let Some(event) = classify_notification(notification) {
            out.push(BridgeAction::Emit(event));
        }
        if same_text(method, "agent/turn_completed") {
            if self.logging {
                out.push(BridgeAction::CompleteTurn);
            }
            self.current = None;
        }
        assert(action_views(out@) =~= notification_actions(
            notification.method_text(),
            notification.params_view(),
            old(self).turn(),
            old(self).logs(),
        ));
        out
    }

    /// The agent did not take a submission: the user interface is told before
    /// the bridge ends.
    pub fn on_submit_failed(&self) -> (r: BridgeEvent)
        ensures
            r@ == EventContent::AgentClosed,
    {
        BridgeEvent::AgentClosed
    }

    /// The bridge ends, for whatever reason.
    pub fn on_end(&self) -> (r: BridgeEvent)
        ensures
            r@ == EventContent::AgentClosed,
    {
        BridgeEvent::AgentClosed
    }
}

/// Which turn log is open. A log stays open until its turn is completed, and
/// takes what is recorded meanwhile under whatever turn.
pub struct TurnSlot {
    open: Option<String>,
}

impl TurnSlot {
    /// The turn whose log is open, if any.
    pub closed spec fn view(&self) -> Option<Seq<char>> {
        match self.open {
            Some(s) => Some(s@),
            None => None,
        }
    }

    /// No log is open.
    pub fn new() -> (r: TurnSlot)
        ensures
            r@ is None,
    {
        TurnSlot { open: None }
    }

    /// Whether a log has to be opened before something is recorded.
    pub fn needs_open(&self) -> (r: bool)
        ensures
            r == (self@ is None),
    {
        self.open.is_none()
    }

    /// The log of a turn was opened.
    pub fn opened(&mut self, turn_id: &str)
        requires
            old(self)@ is None,
        ensures
            final(self)@ == Some(turn_id@),
    {
        self.open = Some(turn_id.to_owned());
    }

    /// Gives up the open log, if any, so that it is renamed. Doing so again
    /// gives nothing.
    pub fn complete(&mut self) -> (r: Option<String>)
        ensures
            final(self)@ is None,
            match r {
                Some(s) => old(self)@ == Some(s@),
                None => old(self)@ is None,
            },
    {
        self.open.take()
    }
}

/// Different submissions have different ids.
pub proof fn law_submission_ids_differ(a: nat, b: nat)
    requires
        a != b,
    ensures
        submission_id(a) != submission_id(b),
{
    if submission_id(a) == submission_id(b) {
        assert(("s"@ + decimal(a)).skip("s"@.len() as int) =~= decimal(a));
        assert(("s"@ + decimal(b)).skip("s"@.len() as int) =~= decimal(b));
        law_decimal_injective(a, b);
    }
}

/// What the user interface is told of a turn's end is logged before it is
/// told, and the log is closed after.
pub proof fn law_turn_end_is_logged_first(params: JsonView, current: Option<Seq<char>>)
    ensures
        ({
            let actions = notification_actions("agent/turn_completed"@, params, current, true);
            &&& actions.len() == 3
            &&& actions[0] == (ActionView::RecordNotification {
                turn_id: turn_of(current),
                method: "agent/turn_completed"@,
                params_json: json_line(params),
            })
            &&& actions[1] is Emit
            &&& actions[2] == ActionView::CompleteTurn
        }),
{
    reveal_strlit("agent/turn_completed");
    reveal_strlit("agent/message_delta");
    reveal_strlit("agent/");
    assert("agent/turn_completed"@.subrange(0, 6) =~= "agent/"@);
    assert("agent/turn_completed"@.len() != "agent/message_delta"@.len());
}

/// What the user interface is told by a run of actions, in order.
pub open spec fn told(actions: Seq<ActionView>) -> Seq<EventContent>
    decreases actions.len(),
{
    if actions.len() == 0 {
        Seq::empty()
    } else {
        match actions.last() {
            ActionView::Emit(e) => told(actions.drop_last()).push(e),
            _ => told(actions.drop_last()),
        }
    }
}

proof fn lemma_told_concat(a: Seq<ActionView>, b: Seq<ActionView>)
    ensures
        told(a + b) == told(a) + told(b),
    decreases b.len(),
{
    if b.len() == 0 {
        assert(a + b =~= a);
        assert(told(a) + told(b) =~= told(a));
    } else {
        lemma_told_concat(a, b.drop_last());
        assert((a + b).drop_last() =~= a + b.drop_last());
        assert((a + b).last() == b.last());
        assert(told(a + b) =~= told(a) + told(b));
    }
}

proof fn lemma_told_parts(
    method: Seq<char>,
    params: JsonView,
    current: Option<Seq<char>>,
    logging: bool,
)
    ensures
        told(notification_actions(method, params, current, logging)) == (match event_of(
            method,
            params,
        ) {
            Some(e) => seq![e],
            None => Seq::empty(),
        }),
{
    reveal_with_fuel(told, 3);
    let actions = notification_actions(method, params, current, logging);
    let record = if is_logged(method) && logging {
        seq![actions[0]]
    } else {
        Seq::empty()
    };
    let emit = match event_of(method, params) {
        Some(e) => seq![ActionView::Emit(e)],
        None => Seq::empty(),
    };
    let complete = if method == "agent/turn_completed"@ && logging {
        seq![ActionView::CompleteTurn]
    } else {
        Seq::empty()
    };
    assert(actions =~= record + emit + complete);
    lemma_told_concat(record + emit, complete);
    lemma_told_concat(record, emit);
    assert(record.drop_last() =~= Seq::<ActionView>::empty() || record.len() == 0);
    assert(emit.drop_last() =~= Seq::<ActionView>::empty() || emit.len() == 0);
    assert(complete.drop_last() =~= Seq::<ActionView>::empty() || complete.len() == 0);
    assert(told(record) =~= Seq::<EventContent>::empty());
    assert(told(complete) =~= Seq::<EventContent>::empty());
    match event_of(method, params) {
        Some(e) => {
            assert(told(emit) =~= seq![e]);
            assert(told(actions) =~= seq![e]);
        },
        None => {
            assert(told(actions) =~= Seq::<EventContent>::empty());
        },
    }
}

proof fn lemma_methods_differ()
    ensures
        "agent/message_delta"@ != "agent/turn_completed"@,
{
    reveal_strlit("agent/turn_completed");
    reveal_strlit("agent/message_delta");
    assert("agent/turn_completed"@.len() != "agent/message_delta"@.len());
}

/// A piece of the agent's message is told as it was sent, with every character
/// and no other, and nothing else is told with it.
pub proof fn law_delta_is_told(
    params: JsonView,
    text: Seq<char>,
    current: Option<Seq<char>>,
    logging: bool,
)
    requires
        has_field(params, "delta"@, JsonView::Str(text)),
    ensures
        event_of("agent/message_delta"@, params) == Some(EventContent::MessageDelta(text)),
        told(notification_actions("agent/message_delta"@, params, current, logging)) == seq![
            EventContent::MessageDelta(text),
        ],
{
    law_get(params, "delta"@, JsonView::Str(text));
    lemma_told_parts("agent/message_delta"@, params, current, logging);
}

/// What the user interface is told of a run of messages in the order in which
/// they arrive.
pub open spec fn message_of(deltas: Seq<JsonView>) -> Seq<char>
    decreases deltas.len(),
{
    if deltas.len() == 0 {
        Seq::empty()
    } else {
        message_of(deltas.drop_last()) + (match event_of(
            "agent/message_delta"@,
            deltas.last(),
        ) {
            Some(EventContent::MessageDelta(text)) => text,
            _ => Seq::empty(),
        })
    }
}

/// The pieces put together are the message: what is told of a run of deltas
/// is, put together, what was sent, put together.
pub proof fn law_message_is_the_deltas(deltas: Seq<JsonView>, texts: Seq<Seq<char>>)
    requires
        deltas.len() == texts.len(),
        forall|i: int|
            0 <= i < deltas.len() ==> has_field(
                #[trigger] deltas[i],
                "delta"@,
                JsonView::Str(texts[i]),
            ),
    ensures
        message_of(deltas) == texts.flatten(),
    decreases deltas.len(),
{
    if deltas.len() > 0 {
        let front = deltas.drop_last();
        let ends = texts.drop_last();
        assert forall|i: int| 0 <= i < front.len() implies has_field(
            #[trigger] front[i],
            "delta"@,
            JsonView::Str(ends[i]),
        ) by {
            assert(front[i] == deltas[i]);
        }
        law_message_is_the_deltas(front, ends);
        assert(has_field(deltas[deltas.len() - 1], "delta"@, JsonView::Str(texts.last())));
        law_delta_is_told(deltas.last(), texts.last(), None, false);
        assert(texts =~= ends.push(texts.last()));
        ends.lemma_flatten_push(texts.last());
    }
}

/// The end of a turn is told with the reason that was given, or as unknown
/// where none was given as a string.
pub proof fn law_stop_reason_is_told(
    params: JsonView,
    reason: Seq<char>,
    current: Option<Seq<char>>,
    logging: bool,
)
    ensures
        has_field(params, "stop_reason"@, JsonView::Str(reason)) ==> told(
            notification_actions("agent/turn_completed"@, params, current, logging),
        ) == seq![EventContent::TurnCompleted(reason)],
        lacks_field(params, "stop_reason"@) ==> told(
            notification_actions("agent/turn_completed"@, params, current, logging),
        ) == seq![EventContent::TurnCompleted("unknown"@)],
        lacks_field(params, "delta"@) ==> told(
            notification_actions("agent/message_delta"@, params, current, logging),
        ) == seq![EventContent::MessageDelta(Seq::empty())],
{
    lemma_methods_differ();
    law_get(params, "stop_reason"@, JsonView::Str(reason));
    law_get(params, "delta"@, JsonView::Null);
    lemma_told_parts("agent/turn_completed"@, params, current, logging);
    lemma_told_parts("agent/message_delta"@, params, current, logging);
}

/// Of other notifications nothing is told; they are logged like all that the
/// agent sends, and end no turn.
pub proof fn law_other_notifications(
    method: Seq<char>,
    params: JsonView,
    current: Option<Seq<char>>,
    logging: bool,
)
    requires
        method != "agent/message_delta"@,
        method != "agent/turn_completed"@,
    ensures
        told(notification_actions(method, params, current, logging)).len() == 0,
        !notification_actions(method, params, current, logging).contains(
            ActionView::CompleteTurn,
        ),
        turn_after(method, current) == current,
        turn_after("agent/message_delta"@, current) == current,
        turn_after("agent/turn_completed"@, current) is None,
{
    lemma_methods_differ();
    lemma_told_parts(method, params, current, logging);
}

/// What the agent sends is logged first, under the turn that runs or under a
/// name of its own before the first prompt, with its method and parameters; it
/// is logged where a log is kept, and only what the agent sends.
pub proof fn law_notifications_are_logged(
    rest: Seq<char>,
    method: Seq<char>,
    params: JsonView,
    turn: Seq<char>,
)
    ensures
        ({
            let sent = "agent/"@ + rest;
            let running = notification_actions(sent, params, Some(turn), true);
            let before = notification_actions(sent, params, None, true);
            &&& running.len() > 0 && running[0] == (ActionView::RecordNotification {
                turn_id: turn,
                method: sent,
                params_json: json_line(params),
            })
            &&& before.len() > 0 && before[0] == (ActionView::RecordNotification {
                turn_id: "preboot"@,
                method: sent,
                params_json: json_line(params),
            })
        }),
        forall|i: int|
            0 <= i < notification_actions(method, params, Some(turn), false).len()
                ==> #[trigger] notification_actions(method, params, Some(turn), false)[i] is Emit,
        (forall|tail: Seq<char>| method != #[trigger] ("agent/"@ + tail)) ==> forall|i: int|
            0 <= i < notification_actions(method, params, Some(turn), true).len() ==> !(
            #[trigger] notification_actions(method, params, Some(turn), true)[i]
                is RecordNotification),
{
    law_starts_and_ends(rest, "agent/"@, "agent/"@ + rest);
    law_starts_and_ends(rest, "agent/"@, method);
}

/// A prompt is handed to the agent as it is, in the default thread and under
/// the id of its number; where a log is kept it is logged under that id
/// before.
pub proof fn law_prompt_is_submitted(n: nat, prompt: Seq<char>)
    ensures
        ({
            let id = "s"@ + decimal(n);
            let logged = prompt_actions(n, prompt, true);
            let plain = prompt_actions(n, prompt, false);
            &&& logged.len() == 2
            &&& logged[0] == (ActionView::RecordUserOp { turn_id: id, prompt })
            &&& plain.len() == 1
            &&& plain[0] == logged[1]
            &&& plain[0] matches ActionView::Submit { id: given, thread_id, payload }
            && given == id && thread_id == "default"@ && has_field(
                payload,
                "text"@,
                JsonView::Str(prompt),
            )
        }),
{
    let payload = prompt_actions(n, prompt, false)[0]->payload;
    assert(crate::json::stands_first(payload->Object_0, "text"@, 0));
}

/// An event and an action stand for those of their own kinds, with their own
/// texts.
pub proof fn law_bridge_views(
    a: String,
    b: String,
    c: String,
    e: BridgeEvent,
    s: Submission,
    actions: Seq<BridgeAction>,
    i: int,
)
    requires
        0 <= i < actions.len(),
    ensures
        (BridgeEvent::MessageDelta { text: a })@ == EventContent::MessageDelta(a@),
        (BridgeEvent::TurnCompleted { stop_reason: a })@ == EventContent::TurnCompleted(a@),
        BridgeEvent::AgentClosed@ == EventContent::AgentClosed,
        (BridgeAction::RecordUserOp { turn_id: a, prompt: b })@ == (ActionView::RecordUserOp {
            turn_id: a@,
            prompt: b@,
        }),
        BridgeAction::Submit(s)@ == (ActionView::Submit {
            id: s.id.0@,
            thread_id: s.thread_id.0@,
            payload: s.payload@,
        }),
        (BridgeAction::RecordNotification { turn_id: a, method: b, params_json: c })@ == (
        ActionView::RecordNotification { turn_id: a@, method: b@, params_json: c@ }),
        BridgeAction::Emit(e)@ == ActionView::Emit(e@),
        BridgeAction::CompleteTurn@ == ActionView::CompleteTurn,
        action_views(actions).len() == actions.len(),
        action_views(actions)[i] == actions[i]@,
{
}

/// What is no string counts as missing: a delta adds nothing, and the reason
/// is not known.
pub proof fn law_no_text_is_told(
    params: JsonView,
    v: JsonView,
    current: Option<Seq<char>>,
    logging: bool,
)
    requires
        !(v is Str),
    ensures
        has_field(params, "delta"@, v) ==> told(
            notification_actions("agent/message_delta"@, params, current, logging),
        ) == seq![EventContent::MessageDelta(Seq::empty())],
        has_field(params, "stop_reason"@, v) ==> told(
            notification_actions("agent/turn_completed"@, params, current, logging),
        ) == seq![EventContent::TurnCompleted("unknown"@)],
        turn_of(None) == "preboot"@,
{
    law_get(params, "delta"@, v);
    law_get(params, "stop_reason"@, v);
    lemma_methods_differ();
    lemma_told_parts("agent/turn_completed"@, params, current, logging);
    lemma_told_parts("agent/message_delta"@, params, current, logging);
}

} // verus!
