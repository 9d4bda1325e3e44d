//! Conformance scenarios: what a backend is asked, which notifications it is
//! expected to send, and whether it did.
use crate::agent::capabilities::texts;
use crate::agent::envelope::IncomingServerNotification;
use crate::json::Json;
use crate::text::{concat_text, quote, quoted, same_text};
use vstd::prelude::*;

verus! {

/// A scenario.
#[derive(Debug, Clone, PartialEq, Eq)]
pub struct ConformanceFixture {
    pub schema_version: u32,
    pub description: String,
    pub input: ScenarioInput,
    pub expected_events: Vec<ExpectedEvent>,
    /// Whether notifications that are neither expected nor known are faults.
    pub strict: bool,
    pub timeout_ms: u64,
    pub tags: Vec<String>,
}

/// What the backend is asked.
#[derive(Debug, Clone, PartialEq, Eq)]
pub struct ScenarioInput {
    pub prompt: String,
    pub network_disabled: bool,
    pub attachments: Vec<String>,
}

/// A notification that is expected.
#[derive(Debug, Clone, PartialEq, Eq)]
pub struct ExpectedEvent {
    pub method: String,
    pub match_: Option<Match>,
    pub respond_with: Option<RespondWith>,
}

/// What the parameters of a notification are held against.
#[derive(Debug, Clone, PartialEq, Eq)]
pub struct Match {
    pub params: Option<Json>,
}

/// What a request for approval is answered with.
#[derive(Debug, Clone, PartialEq, Eq)]
pub struct RespondWith {
    pub decision: String,
}

/// The version of a scenario that gives none.
pub fn default_schema_version() -> (r: u32)
    ensures
        r == 1,
{
    1
}

/// The time limit of a scenario that gives none, in milliseconds.
pub fn default_timeout() -> (r: u64)
    ensures
        r == 30_000,
{
    30_000
}

/// How a scenario came out.
#[derive(Debug, Clone, PartialEq, Eq)]
pub enum ScenarioOutcome {
    /// Every expected notification came, in order.
    Pass,
    /// The notifications ended before that, or one came that the scenario does
    /// not allow.
    Failed(String),
    /// The time limit passed before that.
    TimedOut,
}

/// How a scenario came out, and what was seen.
#[derive(Debug, Clone, PartialEq, Eq)]
pub struct ScenarioReport {
    pub outcome: ScenarioOutcome,
    pub observed_methods: Vec<String>,
}

/// The methods of a run of expected notifications.
pub open spec fn expected_methods(events: Seq<ExpectedEvent>) -> Seq<Seq<char>> {
    Seq::new(events.len(), |i: int| events[i].method@)
}

/// What is still expected after one more notification.
pub open spec fn still_expected(expected: Seq<Seq<char>>, method: Seq<char>) -> Seq<Seq<char>> {
    if expected.len() > 0 && expected[0] == method {
        expected.drop_first()
    } else {
        expected
    }
}

/// What is still expected after a run of notifications.
pub open spec fn remaining(expected: Seq<Seq<char>>, observed: Seq<Seq<char>>) -> Seq<Seq<char>>
    decreases observed.len(),
{
    if observed.len() == 0 {
        expected
    } else {
        remaining(still_expected(expected, observed[0]), observed.drop_first())
    }
}

/// Whether a notification is not the one that is expected next.
pub open spec fn is_extra(expected: Seq<Seq<char>>, method: Seq<char>) -> bool {
    expected.len() == 0 || expected[0] != method
}

/// What a notification means for a scenario.
#[derive(Debug, Clone, Copy, PartialEq, Eq, Structural)]
pub enum Verdict {
    /// More is expected.
    GoOn,
    /// Every expected notification has come.
    Passed,
    /// The scenario does not allow the notification.
    Refused,
}

/// What a notification means where `expected` is still to come: a strict
/// scenario refuses one that is extra and unknown, and no other is refused.
pub open spec fn verdict(
    strict: bool,
    expected: Seq<Seq<char>>,
    method: Seq<char>,
    unknown: bool,
) -> Verdict {
    if strict && unknown && is_extra(expected, method) {
        Verdict::Refused
    } else if still_expected(expected, method).len() == 0 {
        Verdict::Passed
    } else {
        Verdict::GoOn
    }
}

/// What a run of notifications means: the first verdict that ends the
/// scenario. Each notification is its method and whether that is unknown.
pub open spec fn judged(
    strict: bool,
    expected: Seq<Seq<char>>,
    events: Seq<(Seq<char>, bool)>,
) -> Verdict
    decreases events.len(),
{
    if events.len() == 0 {
        Verdict::GoOn
    } else {
        match verdict(strict, expected, events[0].0, events[0].1) {
            Verdict::GoOn => judged(
                strict,
                still_expected(expected, events[0].0),
                events.drop_first(),
            ),
            v => v,
        }
    }
}

/// The methods of a run of notifications.
pub open spec fn methods_of(events: Seq<(Seq<char>, bool)>) -> Seq<Seq<char>> {
    Seq::new(events.len(), |i: int| events[i].0)
}

/// Whether the notification at `n` is unknown and not the one expected, and
/// something was still expected after each one before it.
pub open spec fn extra_unknown_at(
    expected: Seq<Seq<char>>,
    events: Seq<(Seq<char>, bool)>,
    n: int,
) -> bool {
    &&& 0 <= n < events.len()
    &&& events[n].1
    &&& is_extra(remaining(expected, methods_of(events.take(n))), events[n].0)
    &&& forall|m: int|
        0 < m <= n ==> remaining(expected, methods_of(#[trigger] events.take(m))).len() > 0
}

proof fn lemma_later(expected: Seq<Seq<char>>, events: Seq<(Seq<char>, bool)>, m: int)
    requires
        0 < m <= events.len(),
    ensures
        remaining(expected, methods_of(events.take(m))) == remaining(
            still_expected(expected, events[0].0),
            methods_of(events.drop_first().take(m - 1)),
        ),
{
    let all = methods_of(events.take(m));
    assert(all[0] == events[0].0);
    assert(all.drop_first() =~= methods_of(events.drop_first().take(m - 1)));
}

/// A notification that is extra and unknown fails the scenario exactly where
/// the scenario is strict, as long as the scenario had not passed before it.
pub proof fn law_extra_unknown_fails_iff_strict(
    strict: bool,
    expected: Seq<Seq<char>>,
    events: Seq<(Seq<char>, bool)>,
)
    ensures
        judged(strict, expected, events) is Refused <==> strict && exists|n: int|
            #[trigger] extra_unknown_at(expected, events, n),
    decreases events.len(),
{
    if events.len() > 0 {
        let rest = events.drop_first();
        let next = still_expected(expected, events[0].0);
        law_extra_unknown_fails_iff_strict(strict, next, rest);
        assert(methods_of(events.take(0)) =~= Seq::<Seq<char>>::empty());
        lemma_later(expected, events, 1);
        assert(methods_of(rest.take(0)) =~= Seq::<Seq<char>>::empty());
        if judged(strict, expected, events) is Refused {
            if events[0].1 && is_extra(expected, events[0].0) {
                assert(extra_unknown_at(expected, events, 0));
            } else {
                let w = choose|w: int| #[trigger] extra_unknown_at(next, rest, w);
                assert(rest[w] == events[w + 1]);
                lemma_later(expected, events, w + 1);
                assert forall|m: int| 0 < m <= w + 1 implies remaining(
                    expected,
                    methods_of(#[trigger] events.take(m)),
                ).len() > 0 by {
                    lemma_later(expected, events, m);
                    if m > 1 {
                        assert(remaining(next, methods_of(rest.take(m - 1))).len() > 0);
                    }
                }
                assert(extra_unknown_at(expected, events, w + 1));
            }
        }
        if strict && exists|n: int| #[trigger] extra_unknown_at(expected, events, n) {
            let n = choose|n: int| #[trigger] extra_unknown_at(expected, events, n);
            if n > 0 {
                assert(remaining(expected, methods_of(events.take(1))).len() > 0);
                lemma_later(expected, events, n);
                assert(rest[n - 1] == events[n]);
                assert forall|m: int| 0 < m <= n - 1 implies remaining(
                    next,
                    methods_of(#[trigger] rest.take(m)),
                ).len() > 0 by {
                    lemma_later(expected, events, m + 1);
                    assert(remaining(expected, methods_of(events.take(m + 1))).len() > 0);
                }
                assert(extra_unknown_at(next, rest, n - 1));
            }
        }
    }
}

/// Whether `places` are ascending places in `all` at which the items of `some`
/// stand.
pub open spec fn are_places(places: Seq<int>, some: Seq<Seq<char>>, all: Seq<Seq<char>>) -> bool {
    &&& places.len() == some.len()
    &&& forall|i: int|
        0 <= i < places.len() ==> 0 <= #[trigger] places[i] < all.len() && all[places[i]] == some[i]
    &&& forall|i: int, j: int|
        0 <= i < j < places.len() ==> #[trigger] places[i] < #[trigger] places[j]
}

/// Whether the items of `some` stand in `all` in order, with anything between
/// them.
pub open spec fn occurs_in_order(some: Seq<Seq<char>>, all: Seq<Seq<char>>) -> bool {
    exists|places: Seq<int>| #[trigger] are_places(places, some, all)
}

proof fn lemma_drained_occurs(expected: Seq<Seq<char>>, observed: Seq<Seq<char>>) -> (places: Seq<
    int,
>)
    requires
        remaining(expected, observed).len() == 0,
    ensures
        are_places(places, expected, observed),
    decreases observed.len(),
{
    if observed.len() == 0 {
        Seq::empty()
    } else {
        let next = still_expected(expected, observed[0]);
        let later = lemma_drained_occurs(next, observed.drop_first());
        let shifted = Seq::new(later.len(), |i: int| later[i] + 1);
        assert forall|i: int| 0 <= i < later.len() implies 0 <= #[trigger] shifted[i]
            < observed.len() && observed[shifted[i]] == next[i] by {
            assert(observed.drop_first()[later[i]] == observed[later[i] + 1]);
        }
        assert forall|i: int, j: int| 0 <= i < j < later.len() implies #[trigger] shifted[i]
            < #[trigger] shifted[j] by {
            assert(later[i] < later[j]);
        }
        if next.len() < expected.len() {
            let places = seq![0int] + shifted;
            assert forall|i: int| 0 <= i < places.len() implies 0 <= #[trigger] places[i]
                < observed.len() && observed[places[i]] == expected[i] by {
                if i > 0 {
                    assert(places[i] == shifted[i - 1]);
                    assert(next[i - 1] == expected[i]);
                }
            }
            assert forall|i: int, j: int| 0 <= i < j < places.len() implies #[trigger] places[i]
                < #[trigger] places[j] by {
                assert(places[j] == shifted[j - 1]);
                if i > 0 {
                    assert(places[i] == shifted[i - 1]);
                }
            }
            places
        } else {
            shifted
        }
    }
}

proof fn lemma_occurs_drained(
    expected: Seq<Seq<char>>,
    observed: Seq<Seq<char>>,
    places: Seq<int>,
)
    requires
        are_places(places, expected, observed),
    ensures
        remaining(expected, observed).len() == 0,
    decreases observed.len(),
{
    if observed.len() == 0 {
        if places.len() > 0 {
            assert(places[0] < observed.len());
        }
    } else {
        let next = still_expected(expected, observed[0]);
        let rest = observed.drop_first();
        if expected.len() == 0 {
            lemma_occurs_drained(next, rest, places);
        } else if expected[0] == observed[0] {
            let later = Seq::new((places.len() - 1) as nat, |i: int| places[i + 1] - 1);
            assert forall|i: int| 0 <= i < later.len() implies 0 <= #[trigger] later[i]
                < rest.len() && rest[later[i]] == next[i] by {
                assert(places[0] < places[i + 1]);
                assert(observed[places[i + 1]] == expected[i + 1]);
            }
            assert forall|i: int, j: int| 0 <= i < j < later.len() implies #[trigger] later[i]
                < #[trigger] later[j] by {
                assert(places[i + 1] < places[j + 1]);
            }
            lemma_occurs_drained(next, rest, later);
        } else {
            let later = Seq::new(places.len(), |i: int| places[i] - 1);
            assert(places[0] != 0) by {
                assert(observed[places[0]] == expected[0]);
            }
            assert forall|i: int| 0 <= i < later.len() implies 0 <= #[trigger] later[i]
                < rest.len() && rest[later[i]] == next[i] by {
                if i > 0 {
                    assert(places[0] < places[i]);
                }
                assert(observed[places[i]] == expected[i]);
            }
            assert forall|i: int, j: int| 0 <= i < j < later.len() implies #[trigger] later[i]
                < #[trigger] later[j] by {
                assert(places[i] < places[j]);
            }
            lemma_occurs_drained(next, rest, later);
        }
    }
}

/// Nothing is expected any more exactly where the expected notifications were
/// seen in order, with anything between them.
pub proof fn law_drained_means_seen_in_order(
    expected: Seq<Seq<char>>,
    observed: Seq<Seq<char>>,
)
    ensures
        remaining(expected, observed).len() == 0 <==> occurs_in_order(expected, observed),
{
    if remaining(expected, observed).len() == 0 {
        let places = lemma_drained_occurs(expected, observed);
        assert(are_places(places, expected, observed));
    }
    if occurs_in_order(expected, observed) {
        let places = choose|places: Seq<int>| #[trigger] are_places(places, expected, observed);
        lemma_occurs_drained(expected, observed, places);
    }
}

proof fn lemma_remaining_push(
    expected: Seq<Seq<char>>,
    observed: Seq<Seq<char>>,
    method: Seq<char>,
)
    ensures
        remaining(expected, observed.push(method)) == still_expected(
            remaining(expected, observed),
            method,
        ),
    decreases observed.len(),
{
    let longer = observed.push(method);
    if observed.len() == 0 {
        assert(longer[0] == method);
        assert(longer.drop_first() =~= Seq::<Seq<char>>::empty());
        assert(remaining(still_expected(expected, method), longer.drop_first()) == still_expected(
            expected,
            method,
        ));
    } else {
        assert(longer[0] == observed[0]);
        assert(longer.drop_first() =~= observed.drop_first().push(method));
        lemma_remaining_push(
            still_expected(expected, observed[0]),
            observed.drop_first(),
            method,
        );
    }
}

/// Strings in quotes with commas between them.
pub open spec fn quoted_items(items: Seq<Seq<char>>) -> Seq<char>
    decreases items.len(),
{
    if items.len() == 0 {
        Seq::empty()
    } else if items.len() == 1 {
        quoted(items[0])
    } else {
        quoted_items(items.drop_last()) + ", "@ + quoted(items.last())
    }
}

/// A list of strings as it is shown to a developer.
pub open spec fn debug_list(items: Seq<Seq<char>>) -> Seq<char> {
    "["@ + quoted_items(items) + "]"@
}

/// A list of strings as it is shown to a developer.
fn debug_strings(items: &Vec<String>) -> (r: String)
    ensures
        r@ == debug_list(texts(items@)),
{
    let ghost views = texts(items@);
    let mut out = String::new();
    let mut i: usize = 0;
    assert(views.take(0) =~= Seq::<Seq<char>>::empty());
    assert(out@ =~= quoted_items(views.take(0)));
    while i < items.len()
        invariant
            i <= items.len(),
            views == texts(items@),
            out@ == quoted_items(views.take(i as int)),
        decreases items.len() - i,
    {
        let ghost before = out@;
        if i > 0 {
            out.append(", ");
        }
        out.append(quote(items[i].as_str()).as_str());
        proof {
            let wider = views.take(i + 1);
            assert(wider.drop_last() =~= views.take(i as int));
            assert(wider.last() == items@[i as int]@);
            if i == 0 {
                assert(out@ =~= quoted(wider[0]));
            }
        }
        i = i + 1;
    }
    assert(views.take(items@.len() as int) =~= views);
    let mut list = "[".to_owned();
    list.append(out.as_str());
    list.append("]");
    list
}

/// What is said where the notifications ended too early.
pub open spec fn ended_text(missing: Seq<Seq<char>>) -> Seq<char> {
    "stream ended before expected events drained; remaining: "@ + debug_list(missing)
}

/// What is said where a notification is not allowed.
pub open spec fn refused_text(method: Seq<char>) -> Seq<char> {
    "unexpected unknown notification in strict scenario: "@ + quoted(method)
}

/// A scenario that is under way.
pub struct ScenarioRun {
    strict: bool,
    expected: Vec<String>,
    drained: usize,
    observed: Vec<String>,
}

impl ScenarioRun {
    /// What the scenario expects in all.
    pub closed spec fn expected(&self) -> Seq<Seq<char>> {
        texts(self.expected@)
    }

    /// Whether notifications that are neither expected nor known are refused.
    pub closed spec fn strict(&self) -> bool {
        self.strict
    }

    /// What was seen.
    pub closed spec fn observed(&self) -> Seq<Seq<char>> {
        texts(self.observed@)
    }

    /// What was drained is what the notifications so far account for.
    #[verifier::type_invariant]
    spec fn wf(self) -> bool {
        &&& self.drained <= self.expected.len()
        &&& texts(self.expected@).skip(self.drained as int) == remaining(
            texts(self.expected@),
            texts(self.observed@),
        )
    }

    /// A scenario that is not strict, expects nothing and has seen nothing.
    fn empty() -> (r: ScenarioRun)
        ensures
            !r.strict(),
            r.expected() == Seq::<Seq<char>>::empty(),
            r.observed() == Seq::<Seq<char>>::empty(),
    {
        let expected: Vec<String> = Vec::new();
        let observed: Vec<String> = Vec::new();
        assert(texts(observed@) =~= Seq::<Seq<char>>::empty());
        assert(texts(expected@) =~= Seq::<Seq<char>>::empty());
        assert(texts(expected@).skip(0) =~= texts(expected@));
        ScenarioRun { strict: false, expected, drained: 0, observed }
    }

    /// The start of a scenario.
    pub fn new(fixture: &ConformanceFixture) -> (r: ScenarioRun)
        ensures
            r.strict() == fixture.strict,
            r.expected() == expected_methods(fixture.expected_events@),
            r.observed() == Seq::<Seq<char>>::empty(),
    {
        let events = &fixture.expected_events;
        let mut expected: Vec<String> = Vec::new();
        let mut i: usize = 0;
        while i < events.len()
            invariant
                i <= events.len(),
                expected.len() == i,
                forall|k: int| 0 <= k < i ==> (#[trigger] expected@[k])@ == events@[k].method@,
            decreases events.len() - i,
        {
            expected.push(events[i].method.clone());
            i = i + 1;
        }
        let observed: Vec<String> = Vec::new();
        assert(texts(observed@) =~= Seq::<Seq<char>>::empty());
        assert(texts(expected@).skip(0) =~= texts(expected@));
        assert(texts(expected@) =~= expected_methods(events@));
        ScenarioRun { strict: fixture.strict, expected, drained: 0, observed }
    }

    /// Takes a notification and says what it means for the scenario.
    pub fn observe(&mut self, event: &IncomingServerNotification) -> (r: Verdict)
        ensures
            final(self).strict() == old(self).strict(),
            final(self).expected() == old(self).expected(),
            final(self).observed() == old(self).observed().push(event.method_text()),
            r == verdict(
                old(self).strict(),
                remaining(old(self).expected(), old(self).observed()),
                event.method_text(),
                event is Unknown,
            ),
    {
        let method = event.method();
        proof {
            use_type_invariant(&*self);
            lemma_remaining_push(texts(self.expected@), texts(self.observed@), method@);
        }
        let mut before = ScenarioRun::empty();
        std::mem::swap(&mut before, self);
        let ScenarioRun { strict, expected, drained: at, observed } = before;
        let mut observed = observed;
        let ghost seen = texts(observed@);
        let ghost wanted = texts(expected@);
        let awaited = at < expected.len() && same_text(expected[at].as_str(), method);
        let next = if awaited {
            at + 1
        } else {
            at
        };
        observed.push(method.to_owned());
        proof {
            assert(texts(observed@) =~= seen.push(method@));
            if at < expected.len() {
                assert(wanted.skip(at as int)[0] == expected@[at as int]@);
                assert(wanted.skip(at as int).drop_first() =~= wanted.skip(at + 1));
            }
        }
        let all_came = next == expected.len();
        *self = ScenarioRun { strict, expected, drained: next, observed };
        if strict && !awaited && event.is_unknown() {
            Verdict::Refused
        } else if all_came {
            Verdict::Passed
        } else {
            Verdict::GoOn
        }
    }

    /// The methods that are still expected.
    fn missing(&self) -> (r: Vec<String>)
        ensures
            texts(r@) == remaining(self.expected(), self.observed()),
    {
        proof {
            use_type_invariant(self);
        }
        let mut out: Vec<String> = Vec::new();
        let mut i: usize = self.drained;
        while i < self.expected.len()
            invariant
                self.drained <= i <= self.expected.len(),
                out.len() == i - self.drained,
                forall|k: int|
                    0 <= k < out.len() ==> (#[trigger] out@[k])@ == self.expected@[self.drained
                        + k]@,
            decreases self.expected.len() - i,
        {
            out.push(self.expected[i].clone());
            i = i + 1;
        }
        assert(texts(out@) =~= texts(self.expected@).skip(self.drained as int));
        out
    }

    /// The report of a scenario that passed.
    pub fn passed(self) -> (r: ScenarioReport)
        ensures
            r.outcome == ScenarioOutcome::Pass,
            texts(r.observed_methods@) == self.observed(),
    {
        ScenarioReport { outcome: ScenarioOutcome::Pass, observed_methods: self.observed }
    }

    /// The report where a notification was refused.
    pub fn refused(self, method: &str) -> (r: ScenarioReport)
        ensures
            r.outcome matches ScenarioOutcome::Failed(why) && why@ == refused_text(method@),
            texts(r.observed_methods@) == self.observed(),
    {
        let why = concat_text(
            "unexpected unknown notification in strict scenario: ",
            quote(method).as_str(),
        );
        ScenarioReport { outcome: ScenarioOutcome::Failed(why), observed_methods: self.observed }
    }

    /// The report where the notifications ended.
    pub fn ended(self) -> (r: ScenarioReport)
        ensures
            r.outcome matches ScenarioOutcome::Failed(why) && why@ == ended_text(
                remaining(self.expected(), self.observed()),
            ),
            texts(r.observed_methods@) == self.observed(),
    {
        let missing = self.missing();
        let mut why = "stream ended before expected events drained; remaining: ".to_owned();
        why.append(debug_strings(&missing).as_str());
        ScenarioReport {
            outcome: ScenarioOutcome::Failed(why),
            observed_methods: self.observed,
        }
    }

    /// The report where the time limit passed.
    pub fn timed_out(self) -> (r: ScenarioReport)
        ensures
            r.outcome == ScenarioOutcome::TimedOut,
            texts(r.observed_methods@) == self.observed(),
    {
        ScenarioReport { outcome: ScenarioOutcome::TimedOut, observed_methods: self.observed }
    }
}

proof fn lemma_nothing_left(observed: Seq<Seq<char>>)
    ensures
        remaining(Seq::empty(), observed).len() == 0,
    decreases observed.len(),
{
    if observed.len() > 0 {
        lemma_nothing_left(observed.drop_first());
    }
}

/// A scenario that is not strict passes exactly where the notifications that
/// it expects were among those that came, in order, whatever came between
/// them; it is refused never.
pub proof fn law_passes_iff_expected_came(
    expected: Seq<Seq<char>>,
    events: Seq<(Seq<char>, bool)>,
)
    ensures
        judged(false, expected, events) is Passed <==> events.len() > 0 && occurs_in_order(
            expected,
            methods_of(events),
        ),
        !(judged(false, expected, events) is Refused),
    decreases events.len(),
{
    law_drained_means_seen_in_order(expected, methods_of(events));
    if events.len() > 0 {
        let rest = events.drop_first();
        let next = still_expected(expected, events[0].0);
        law_passes_iff_expected_came(next, rest);
        law_drained_means_seen_in_order(next, methods_of(rest));
        assert(methods_of(events).drop_first() =~= methods_of(rest));
        assert(methods_of(events)[0] == events[0].0);
        if next.len() == 0 {
            assert(next =~= Seq::<Seq<char>>::empty());
            lemma_nothing_left(methods_of(rest));
        } else if rest.len() == 0 {
            assert(methods_of(rest).len() == 0);
        }
    }
}

/// A strict scenario goes as another as long as every notification that is
/// not expected is known.
pub proof fn law_strict_differs_on_unknown_only(
    expected: Seq<Seq<char>>,
    events: Seq<(Seq<char>, bool)>,
)
    requires
        forall|i: int| 0 <= i < events.len() ==> !(#[trigger] events[i]).1,
    ensures
        judged(true, expected, events) == judged(false, expected, events),
    decreases events.len(),
{
    if events.len() > 0 {
        let rest = events.drop_first();
        assert(!events[0].1);
        assert forall|i: int| 0 <= i < rest.len() implies !(#[trigger] rest[i]).1 by {
            assert(rest[i] == events[i + 1]);
        }
        law_strict_differs_on_unknown_only(still_expected(expected, events[0].0), rest);
    }
}

/// What one notification means: the one that is expected next brings the
/// scenario on, and ends it where it is the last; one that is not expected
/// changes nothing, or fails a strict scenario where it is unknown.
pub proof fn law_one_notification(
    strict: bool,
    first: Seq<char>,
    others: Seq<Seq<char>>,
    method: Seq<char>,
    unknown: bool,
)
    ensures
        ({
            let expected = seq![first] + others;
            &&& others.len() == 0 ==> verdict(strict, expected, first, unknown) is Passed
            &&& others.len() > 0 ==> verdict(strict, expected, first, unknown) is GoOn
            &&& still_expected(expected, first) == others
            &&& method != first && strict && unknown ==> verdict(strict, expected, method, unknown)
                is Refused
            &&& method != first && !(strict && unknown) ==> verdict(
                strict,
                expected,
                method,
                unknown,
            ) is GoOn
            &&& method != first ==> still_expected(expected, method) == expected
        }),
{
    let expected = seq![first] + others;
    assert(expected.drop_first() =~= others);
}

/// What the reports of failed scenarios say: the notification that was not
/// allowed, or those that were still expected, in order, as a list.
pub proof fn law_report_texts(method: Seq<char>, others: Seq<Seq<char>>, first: Seq<char>)
    ensures
        refused_text(method) == "unexpected unknown notification in strict scenario: "@ + quoted(
            method,
        ),
        ended_text(seq![first]) == "stream ended before expected events drained; remaining: "@ + (
        "["@ + quoted(first) + "]"@),
        ended_text(seq![first] + others + seq![method])
            == "stream ended before expected events drained; remaining: "@ + ("["@ + (quoted_items(
            seq![first] + others,
        ) + ", "@ + quoted(method)) + "]"@),
{
    assert((seq![first] + others + seq![method]).drop_last() =~= seq![first] + others);
}

} // verus!
