//! The counters behind the log of notifications that were not recognised.
//!
//! Each such notification is written to a log, one record per line, and
//! counted by method. The counters here are told what was recorded and
//! whether writing it failed; the same counts come out of reading a log
//! again.
use crate::json::Json;
use crate::keyed::{entries_map, keys_distinct, lemma_entries_dom, lemma_entries_remove};
use crate::text::{
    blank, chars_of, is_less, law_text_order_total, law_text_order_transitive, law_trimmed,
    same_text, string_of, text_less, trim_range, trimmed,
};
use vstd::prelude::*;

verus! {

/// One record of the log.
#[derive(Debug, Clone, PartialEq, Eq)]
pub struct DriftRecord {
    /// Milliseconds since the epoch.
    pub ts_unix_ms: u128,
    /// The method as received.
    pub method: String,
    /// The parameters as received.
    pub params: Json,
}

/// The counters at some moment.
#[derive(Debug, Clone, PartialEq, Eq)]
pub struct DriftSummary {
    /// Counts by method, in the order of the methods.
    pub by_method: Vec<(String, u64)>,
    /// How many records there were.
    pub total: u64,
    /// How many records could not be written or read.
    pub io_errors: u64,
}

/// The counters as a mathematical value.
#[verifier::ext_equal]
pub struct DriftView {
    pub counts: Map<Seq<char>, u64>,
    pub total: u64,
    pub io_errors: u64,
}

/// Whether the methods are in order, each once.
pub open spec fn in_method_order(s: Seq<(String, u64)>) -> bool {
    forall|i: int, j: int|
        0 <= i < j < s.len() ==> text_less((#[trigger] s[i]).0@, (#[trigger] s[j]).0@)
}

/// One more, but not beyond the greatest number.
pub open spec fn one_more(n: u64) -> u64 {
    if n == u64::MAX {
        u64::MAX
    } else {
        (n + 1) as u64
    }
}

impl DriftView {
    /// Nothing was counted.
    pub open spec fn none() -> DriftView {
        DriftView { counts: Map::empty(), total: 0, io_errors: 0 }
    }

    /// How often a method was counted.
    pub open spec fn count(self, method: Seq<char>) -> u64 {
        if self.counts.dom().contains(method) {
            self.counts[method]
        } else {
            0
        }
    }

    /// After a record of the given method.
    pub open spec fn recorded(self, method: Seq<char>) -> DriftView {
        DriftView {
            counts: self.counts.insert(method, (self.count(method) + 1) as u64),
            total: one_more(self.total),
            io_errors: self.io_errors,
        }
    }

    /// After a failure to write or read a record.
    pub open spec fn failed(self) -> DriftView {
        DriftView { counts: self.counts, total: self.total, io_errors: one_more(self.io_errors) }
    }
}

/// The counts of all methods together.
pub open spec fn sum_of(counts: Map<Seq<char>, u64>) -> nat
    decreases counts.dom().len(),
    when counts.dom().finite()
{
    if counts.dom().len() == 0 {
        0
    } else {
        let method = counts.dom().choose();
        counts[method] as nat + sum_of(counts.remove(method))
    }
}

/// `n`, but not beyond the greatest number.
pub open spec fn saturated(n: nat) -> u64 {
    if n > u64::MAX {
        u64::MAX
    } else {
        n as u64
    }
}

/// Whether the total is the sum of the counts, as far as it can be held.
pub open spec fn total_is_sum(v: DriftView) -> bool {
    v.counts.dom().finite() && v.total == saturated(sum_of(v.counts))
}

proof fn lemma_sum_remove(counts: Map<Seq<char>, u64>, method: Seq<char>)
    requires
        counts.dom().finite(),
        counts.dom().contains(method),
    ensures
        sum_of(counts) == counts[method] + sum_of(counts.remove(method)),
    decreases counts.dom().len(),
{
    let first = counts.dom().choose();
    assert(counts.dom().len() > 0) by {
        if counts.dom().len() == 0 {
            assert(counts.dom() =~= Set::empty());
        }
    }
    assert(counts.dom().contains(first));
    if first != method {
        let without = counts.remove(first);
        assert(without.dom() =~= counts.dom().remove(first));
        lemma_sum_remove(without, method);
        let other = counts.remove(method);
        assert(other.dom() =~= counts.dom().remove(method));
        lemma_sum_remove(other, first);
        assert(without.remove(method) =~= other.remove(first));
    }
}

/// Recording keeps the total the sum of the counts.
pub proof fn law_recording_keeps_the_sum(v: DriftView, method: Seq<char>)
    requires
        total_is_sum(v),
        v.count(method) < u64::MAX,
    ensures
        total_is_sum(v.recorded(method)),
        sum_of(v.recorded(method).counts) == sum_of(v.counts) + 1,
{
    let after = v.recorded(method).counts;
    assert(after.dom() =~= v.counts.dom().insert(method));
    lemma_sum_remove(after, method);
    if v.counts.dom().contains(method) {
        lemma_sum_remove(v.counts, method);
        assert(after.remove(method) =~= v.counts.remove(method));
    } else {
        assert(after.remove(method) =~= v.counts);
    }
}

proof fn lemma_none_sums(v: DriftView)
    requires
        v.counts =~= Map::<Seq<char>, u64>::empty(),
        v.total == 0,
    ensures
        total_is_sum(v),
        sum_of(v.counts) == 0,
{
    assert(v.counts.dom() =~= Set::<Seq<char>>::empty());
}

/// What the lines of a log come to: a method for each line that holds a
/// record, none for each that does not.
pub open spec fn replayed(lines: Seq<Option<Seq<char>>>) -> DriftView
    decreases lines.len(),
{
    if lines.len() == 0 {
        DriftView::none()
    } else {
        match lines.last() {
            Some(method) => replayed(lines.drop_last()).recorded(method),
            None => replayed(lines.drop_last()).failed(),
        }
    }
}

/// How often a value occurs among the lines.
pub open spec fn occurrences(
    lines: Seq<Option<Seq<char>>>,
    what: Option<Seq<char>>,
) -> nat
    decreases lines.len(),
{
    if lines.len() == 0 {
        0
    } else {
        occurrences(lines.drop_last(), what) + (if lines.last() == what {
            1nat
        } else {
            0nat
        })
    }
}

impl View for DriftSummary {
    type V = DriftView;

    open spec fn view(&self) -> DriftView {
        DriftView {
            counts: entries_map(self.by_method@),
            total: self.total,
            io_errors: self.io_errors,
        }
    }
}

impl Default for DriftSummary {
    fn default() -> (r: Self)
        ensures
            r@ == DriftView::none(),
            in_method_order(r.by_method@),
    {
        DriftSummary { by_method: Vec::new(), total: 0, io_errors: 0 }
    }
}

proof fn lemma_order_is_distinct(s: Seq<(String, u64)>)
    requires
        in_method_order(s),
    ensures
        keys_distinct(s),
{
    assert forall|i: int, j: int| 0 <= i < j < s.len() implies (#[trigger] s[i]).0@ != (
    #[trigger] s[j]).0@ by {
        law_text_order_total(s[i].0@, s[j].0@);
    }
}

/// What the entries say of a method.
proof fn lemma_count_at(s: Seq<(String, u64)>, at: int)
    requires
        in_method_order(s),
        0 <= at < s.len(),
    ensures
        entries_map(s).dom().contains(s[at].0@),
        entries_map(s)[s[at].0@] == s[at].1,
{
    lemma_order_is_distinct(s);
    lemma_entries_remove(s, at);
}

proof fn lemma_bump(s: Seq<(String, u64)>, at: int, entry: (String, u64))
    requires
        in_method_order(s),
        0 <= at < s.len(),
        entry.0@ == s[at].0@,
    ensures
        in_method_order(s.update(at, entry)),
        entries_map(s.update(at, entry)) == entries_map(s).insert(entry.0@, entry.1),
{
    let t = s.update(at, entry);
    assert forall|i: int, j: int| 0 <= i < j < t.len() implies text_less(
        (#[trigger] t[i]).0@,
        (#[trigger] t[j]).0@,
    ) by {
        assert(t[i].0@ == s[i].0@);
        assert(t[j].0@ == s[j].0@);
    }
    assert(t[at] == entry);
    assert forall|i: int| 0 <= i < s.len() && (#[trigger] s[i]).0@ != entry.0@ implies exists|
        j: int,
    |
        0 <= j < t.len() && #[trigger] t[j] == s[i] by {
        assert(t[i] == s[i]);
    }
    assert forall|j: int| 0 <= j < t.len() && (#[trigger] t[j]).0@ != entry.0@ implies exists|
        i: int,
    |
        0 <= i < s.len() && #[trigger] s[i] == t[j] by {
        assert(s[j] == t[j]);
    }
    lemma_same_map(s, t, entry);
}

/// Two runs of entries with the same methods but for one that may be new, and
/// the same counts elsewhere.
proof fn lemma_same_map(s: Seq<(String, u64)>, t: Seq<(String, u64)>, entry: (String, u64))
    requires
        in_method_order(s),
        in_method_order(t),
        exists|i: int| 0 <= i < t.len() && #[trigger] t[i] == entry,
        forall|i: int|
            0 <= i < s.len() && (#[trigger] s[i]).0@ != entry.0@ ==> exists|j: int|
                0 <= j < t.len() && #[trigger] t[j] == s[i],
        forall|j: int|
            0 <= j < t.len() && (#[trigger] t[j]).0@ != entry.0@ ==> exists|i: int|
                0 <= i < s.len() && #[trigger] s[i] == t[j],
    ensures
        entries_map(t) == entries_map(s).insert(entry.0@, entry.1),
{
    let m = entries_map(s).insert(entry.0@, entry.1);
    assert forall|k: Seq<char>| entries_map(t).dom().contains(k) <==> m.dom().contains(k) by {
        lemma_entries_dom(t, k);
        lemma_entries_dom(s, k);
        if k == entry.0@ {
            let w = choose|i: int| 0 <= i < t.len() && #[trigger] t[i] == entry;
            assert(t[w].0@ == k);
        } else {
            if exists|i: int| 0 <= i < s.len() && (#[trigger] s[i]).0@ == k {
                let w = choose|i: int| 0 <= i < s.len() && (#[trigger] s[i]).0@ == k;
                let v = choose|j: int| 0 <= j < t.len() && #[trigger] t[j] == s[w];
                assert(t[v].0@ == k);
            }
            if exists|j: int| 0 <= j < t.len() && (#[trigger] t[j]).0@ == k {
                let w = choose|j: int| 0 <= j < t.len() && (#[trigger] t[j]).0@ == k;
                let v = choose|i: int| 0 <= i < s.len() && #[trigger] s[i] == t[w];
                assert(s[v].0@ == k);
            }
        }
    }
    assert forall|k: Seq<char>| entries_map(t).dom().contains(k) implies #[trigger] entries_map(t)[k]
        == m[k] by {
        lemma_entries_dom(t, k);
        let w = choose|j: int| 0 <= j < t.len() && (#[trigger] t[j]).0@ == k;
        lemma_count_at(t, w);
        if k == entry.0@ {
            let e = choose|i: int| 0 <= i < t.len() && #[trigger] t[i] == entry;
            lemma_count_at(t, e);
        } else {
            let v = choose|i: int| 0 <= i < s.len() && #[trigger] s[i] == t[w];
            lemma_count_at(s, v);
        }
    }
    assert(entries_map(t) =~= m);
}

proof fn lemma_new(s: Seq<(String, u64)>, at: int, entry: (String, u64))
    requires
        in_method_order(s),
        0 <= at <= s.len(),
        forall|i: int| 0 <= i < at ==> text_less((#[trigger] s[i]).0@, entry.0@),
        forall|i: int| at <= i < s.len() ==> text_less(entry.0@, (#[trigger] s[i]).0@),
    ensures
        in_method_order(s.insert(at, entry)),
        entries_map(s.insert(at, entry)) == entries_map(s).insert(entry.0@, entry.1),
        !entries_map(s).dom().contains(entry.0@),
{
    let t = s.insert(at, entry);
    assert forall|i: int, j: int| 0 <= i < j < t.len() implies text_less(
        (#[trigger] t[i]).0@,
        (#[trigger] t[j]).0@,
    ) by {
        if i < at {
            assert(t[i] == s[i]);
        } else if i > at {
            assert(t[i] == s[i - 1]);
        }
        if j < at {
            assert(t[j] == s[j]);
        } else if j > at {
            assert(t[j] == s[j - 1]);
        }
    }
    assert(t[at] == entry);
    assert forall|i: int| 0 <= i < s.len() && (#[trigger] s[i]).0@ != entry.0@ implies exists|
        j: int,
    |
        0 <= j < t.len() && #[trigger] t[j] == s[i] by {
        if i < at {
            assert(t[i] == s[i]);
        } else {
            assert(t[i + 1] == s[i]);
        }
    }
    assert forall|j: int| 0 <= j < t.len() && (#[trigger] t[j]).0@ != entry.0@ implies exists|
        i: int,
    |
        0 <= i < s.len() && #[trigger] s[i] == t[j] by {
        if j < at {
            assert(s[j] == t[j]);
        } else {
            assert(s[j - 1] == t[j]);
        }
    }
    lemma_same_map(s, t, entry);
    lemma_entries_dom(s, entry.0@);
    assert forall|i: int| 0 <= i < s.len() implies (#[trigger] s[i]).0@ != entry.0@ by {
        law_text_order_total(s[i].0@, entry.0@);
    }
}

/// Counts what is recorded.
pub struct DriftCounters {
    counts: Vec<(String, u64)>,
    total: u64,
    io_errors: u64,
}

impl DriftCounters {
    /// The counts.
    pub closed spec fn view(&self) -> DriftView {
        DriftView {
            counts: entries_map(self.counts@),
            total: self.total,
            io_errors: self.io_errors,
        }
    }

    /// The methods are in order, and the total is the sum of their counts.
    #[verifier::type_invariant]
    spec fn wf(self) -> bool {
        &&& in_method_order(self.counts@)
        &&& total_is_sum(
            DriftView {
                counts: entries_map(self.counts@),
                total: self.total,
                io_errors: self.io_errors,
            },
        )
    }

    /// Nothing was counted.
    pub fn new() -> (r: DriftCounters)
        ensures
            r@ == DriftView::none(),
    {
        proof {
            lemma_none_sums(DriftView::none());
        }
        DriftCounters { counts: Vec::new(), total: 0, io_errors: 0 }
    }

    /// Where the first method stands that does not stand before the given
    /// one, and whether it is that method.
    fn position(&self, method: &str) -> (r: (usize, bool))
        ensures
            r.0 <= self.counts.len(),
            r.1 ==> r.0 < self.counts.len() && self.counts@[r.0 as int].0@ == method@,
            !r.1 ==> forall|i: int|
                r.0 <= i < self.counts.len() ==> text_less(
                    method@,
                    (#[trigger] self.counts@[i]).0@,
                ),
            forall|i: int| 0 <= i < r.0 ==> text_less((#[trigger] self.counts@[i]).0@, method@),
    {
        proof {
            use_type_invariant(self);
        }
        let mut i: usize = 0;
        while i < self.counts.len() && is_less(self.counts[i].0.as_str(), method)
            invariant
                i <= self.counts.len(),
                forall|k: int| 0 <= k < i ==> text_less((#[trigger] self.counts@[k]).0@, method@),
            decreases self.counts.len() - i,
        {
            i = i + 1;
        }
        let found = i < self.counts.len() && same_text(self.counts[i].0.as_str(), method);
        proof {
            if !found && i < self.counts.len() {
                let here = self.counts@[i as int].0@;
                law_text_order_total(here, method@);
                assert forall|k: int| i <= k < self.counts.len() implies text_less(
                    method@,
                    (#[trigger] self.counts@[k]).0@,
                ) by {
                    if k > i {
                        law_text_order_transitive(method@, here, self.counts@[k].0@);
                    }
                }
            }
        }
        (i, found)
    }

    /// How often a method was counted.
    pub fn count(&self, method: &str) -> (r: u64)
        ensures
            r == self@.count(method@),
    {
        let (at, found) = self.position(method);
        proof {
            use_type_invariant(self);
            if found {
                lemma_count_at(self.counts@, at as int);
            } else {
                lemma_entries_dom(self.counts@, method@);
                assert forall|i: int| 0 <= i < self.counts@.len() implies (#[trigger] self.counts@[i]).0@
                    != method@ by {
                    law_text_order_total(self.counts@[i].0@, method@);
                }
            }
        }
        if found {
            self.counts[at].1
        } else {
            0
        }
    }

    /// Counts a record of the given method.
    pub fn record(&mut self, method: &str)
        requires
            old(self)@.count(method@) < u64::MAX,
        ensures
            final(self)@ == old(self)@.recorded(method@),
    {
        let (at, found) = self.position(method);
        proof {
            use_type_invariant(&*self);
            law_recording_keeps_the_sum(self@, method@);
        }
        let mut old_self = DriftCounters::new();
        std::mem::swap(&mut old_self, self);
        let DriftCounters { counts, total, io_errors } = old_self;
        let mut counts = counts;
        let ghost before = counts@;
        proof {
            if !found {
                lemma_entries_dom(before, method@);
                assert forall|i: int| 0 <= i < before.len() implies (#[trigger] before[i]).0@
                    != method@ by {
                    law_text_order_total(before[i].0@, method@);
                }
            }
        }
        if found {
            proof {
                lemma_count_at(before, at as int);
            }
            let n = counts[at].1;
            let name = counts[at].0.clone();
            let entry = (name, n + 1);
            proof {
                lemma_bump(before, at as int, entry);
            }
            counts.set(at, entry);
        } else {
            let entry = (method.to_owned(), 1u64);
            proof {
                lemma_new(before, at as int, entry);
            }
            counts.insert(at, entry);
        }
        let total = if total < u64::MAX {
            total + 1
        } else {
            total
        };
        *self = DriftCounters { counts, total, io_errors };
    }

    /// Counts a failure to write or read a record.
    pub fn fail(&mut self)
        ensures
            final(self)@ == old(self)@.failed(),
    {
        proof {
            use_type_invariant(&*self);
        }
        if self.io_errors < u64::MAX {
            self.io_errors = self.io_errors + 1;
        }
    }

    /// The counters at this moment. The counts sum to the total, as far as it
    /// can be held.
    pub fn summary(&self) -> (r: DriftSummary)
        ensures
            r@ == self@,
            in_method_order(r.by_method@),
            total_is_sum(r@),
    {
        proof {
            use_type_invariant(self);
        }
        let mut by_method: Vec<(String, u64)> = Vec::new();
        let mut i: usize = 0;
        while i < self.counts.len()
            invariant
                i <= self.counts.len(),
                by_method.len() == i,
                forall|k: int|
                    0 <= k < i ==> (#[trigger] by_method@[k]).0@ == self.counts@[k].0@
                        && by_method@[k].1 == self.counts@[k].1,
            decreases self.counts.len() - i,
        {
            by_method.push((self.counts[i].0.clone(), self.counts[i].1));
            i = i + 1;
        }
        proof {
            lemma_copy(by_method@, self.counts@);
        }
        DriftSummary { by_method, total: self.total, io_errors: self.io_errors }
    }
}

proof fn lemma_copy(a: Seq<(String, u64)>, b: Seq<(String, u64)>)
    requires
        a.len() == b.len(),
        forall|k: int| 0 <= k < a.len() ==> (#[trigger] a[k]).0@ == b[k].0@ && a[k].1 == b[k].1,
    ensures
        entries_map(a) == entries_map(b),
        in_method_order(b) ==> in_method_order(a),
    decreases a.len(),
{
    if a.len() > 0 {
        lemma_copy(a.drop_last(), b.drop_last());
        assert(a[a.len() - 1].0@ == b[b.len() - 1].0@);
    }
}

/// The methods of a run of lines.
pub open spec fn method_views(lines: Seq<Option<String>>) -> Seq<Option<Seq<char>>> {
    Seq::new(
        lines.len(),
        |i: int|
            match lines[i] {
                Some(method) => Some(method@),
                None => None,
            },
    )
}

impl DriftSummary {
    /// The summary of a log. For each line that is not blank it is given the
    /// method of the record that the line holds, or none where it holds no
    /// record.
    pub fn replay(lines: &Vec<Option<String>>) -> (r: DriftSummary)
        ensures
            r@ == replayed(method_views(lines@)),
            in_method_order(r.by_method@),
            total_is_sum(r@),
    {
        let ghost views = method_views(lines@);
        let mut counters = DriftCounters::new();
        let mut i: usize = 0;
        assert(views.take(0) =~= Seq::<Option<Seq<char>>>::empty());
        while i < lines.len()
            invariant
                i <= lines.len(),
                views == method_views(lines@),
                counters@ == replayed(views.take(i as int)),
            decreases lines.len() - i,
        {
            assert(views.take(i + 1).drop_last() =~= views.take(i as int));
            assert(views.take(i + 1).last() == views[i as int]);
            match &lines[i] {
                Some(method) => {
                    proof {
                        law_replay_counts(views.take(i as int), method@);
                        lemma_occurrences_bound(views.take(i as int), Some(method@));
                    }
                    counters.record(method.as_str());
                },
                None => counters.fail(),
            }
            i = i + 1;
        }
        assert(views.take(lines@.len() as int) =~= views);
        counters.summary()
    }
}

proof fn lemma_occurrences_bound(lines: Seq<Option<Seq<char>>>, what: Option<Seq<char>>)
    ensures
        occurrences(lines, what) <= lines.len(),
    decreases lines.len(),
{
    if lines.len() > 0 {
        lemma_occurrences_bound(lines.drop_last(), what);
    }
}

/// Reading a log gives each method as often as it was recorded, counts the
/// lines that hold a record, and counts the lines that do not as errors.
pub proof fn law_replay_counts(lines: Seq<Option<Seq<char>>>, method: Seq<char>)
    requires
        lines.len() <= u64::MAX,
    ensures
        replayed(lines).count(method) == occurrences(lines, Some(method)),
        replayed(lines).io_errors == occurrences(lines, None),
        replayed(lines).total + replayed(lines).io_errors == lines.len(),
        replayed(lines).counts.dom().contains(method) <==> occurrences(lines, Some(method)) > 0,
    decreases lines.len(),
{
    lemma_occurrences_bound(lines, Some(method));
    lemma_occurrences_bound(lines, None);
    if lines.len() > 0 {
        let front = lines.drop_last();
        law_replay_counts(front, method);
        lemma_occurrences_bound(front, None);
        if let Some(last) = lines.last() {
            law_replay_counts(front, last);
            lemma_occurrences_bound(front, Some(last));
        }
    }
}

/// The counters after records of the given methods.
pub open spec fn recorded_all(methods: Seq<Seq<char>>) -> DriftView
    decreases methods.len(),
{
    if methods.len() == 0 {
        DriftView::none()
    } else {
        recorded_all(methods.drop_last()).recorded(methods.last())
    }
}

/// A log to which every record was written is read back to the counters that
/// recording them gave.
pub proof fn law_replay_equals_recording(methods: Seq<Seq<char>>)
    ensures
        replayed(methods.map_values(|m: Seq<char>| Some(m))) == recorded_all(methods),
    decreases methods.len(),
{
    let lines = methods.map_values(|m: Seq<char>| Some(m));
    if methods.len() > 0 {
        law_replay_equals_recording(methods.drop_last());
        assert(lines.drop_last() =~= methods.drop_last().map_values(|m: Seq<char>| Some(m)));
    }
}

/// Recording counts every record once: in all, in the sum of the counts, and
/// under its method.
pub proof fn law_recording_counts(methods: Seq<Seq<char>>, method: Seq<char>)
    requires
        methods.len() <= u64::MAX,
    ensures
        recorded_all(methods).total == methods.len(),
        recorded_all(methods).io_errors == 0,
        total_is_sum(recorded_all(methods)),
        sum_of(recorded_all(methods).counts) == methods.len(),
        recorded_all(methods).count(method) == occurrences(
            methods.map_values(|m: Seq<char>| Some(m)),
            Some(method),
        ),
    decreases methods.len(),
{
    law_replay_equals_recording(methods);
    law_replay_counts(methods.map_values(|m: Seq<char>| Some(m)), method);
    if methods.len() == 0 {
        lemma_none_sums(recorded_all(methods));
    } else {
        let front = methods.drop_last();
        law_recording_counts(front, methods.last());
        lemma_occurrences_bound(
            front.map_values(|m: Seq<char>| Some(m)),
            Some(methods.last()),
        );
        law_recording_keeps_the_sum(recorded_all(front), methods.last());
    }
}

/// Where a record could not be written, it is counted all the same, and as an
/// error too.
pub proof fn law_failures_are_counted_beside(v: DriftView, method: Seq<char>)
    ensures
        v.recorded(method).failed().counts == v.recorded(method).counts,
        v.recorded(method).failed().total == v.recorded(method).total,
        v.recorded(method).failed().io_errors == one_more(v.io_errors),
{
}

/// The lines of a log that are not blank, without the white space around
/// them.
pub open spec fn log_lines(text: Seq<char>) -> Seq<Seq<char>>
    decreases text.len(),
{
    let end = feed_at(text, 0);
    let line = trimmed(text.take(end));
    let here = if line.len() > 0 {
        seq![line]
    } else {
        Seq::empty()
    };
    if 0 <= end < text.len() {
        here + log_lines(text.skip(end + 1))
    } else {
        here
    }
}

/// The place of the first line feed at or behind `pos`, or the length of the
/// text.
pub open spec fn feed_at(text: Seq<char>, pos: int) -> int
    decreases text.len() - pos,
{
    if pos >= text.len() || pos < 0 {
        text.len() as int
    } else if text[pos] == '\n' {
        pos
    } else {
        feed_at(text, pos + 1)
    }
}

/// The characters of a run of strings.
pub open spec fn line_views(s: Seq<String>) -> Seq<Seq<char>> {
    Seq::new(s.len(), |i: int| s[i]@)
}

proof fn lemma_feed_shift(text: Seq<char>, from: int, pos: int)
    requires
        0 <= from <= pos <= text.len(),
    ensures
        feed_at(text, pos) == from + feed_at(text.skip(from), pos - from),
        pos <= feed_at(text, pos) <= text.len(),
    decreases text.len() - pos,
{
    if pos < text.len() {
        assert(text.skip(from)[pos - from] == text[pos]);
        if text[pos] != '\n' {
            lemma_feed_shift(text, from, pos + 1);
        }
    }
}

/// Splits a log into its lines that are not blank.
pub fn split_log(text: &str) -> (r: Vec<String>)
    ensures
        line_views(r@) == log_lines(text@),
{
    let chars = chars_of(text);
    let mut out: Vec<String> = Vec::new();
    let mut pos: usize = 0;
    assert(line_views(out@) =~= Seq::<Seq<char>>::empty());
    assert(chars@.skip(0) =~= chars@);
    loop
        invariant
            pos <= chars.len(),
            chars@ == text@,
            line_views(out@) + log_lines(chars@.skip(pos as int)) == log_lines(text@),
        decreases chars.len() - pos,
    {
        let mut end: usize = pos;
        while end < chars.len() && chars[end] != '\n'
            invariant
                pos <= end <= chars.len(),
                feed_at(chars@, end as int) == feed_at(chars@, pos as int),
            decreases chars.len() - end,
        {
            end = end + 1;
        }
        let ghost rest = chars@.skip(pos as int);
        let ghost before = line_views(out@);
        proof {
            lemma_feed_shift(chars@, pos as int, pos as int);
            assert(rest.take(end - pos) =~= chars@.subrange(pos as int, end as int));
        }
        let line = chars_of(string_of(&chars, pos, end).as_str());
        let (lo, hi) = trim_range(&line);
        let ghost cut = trimmed(line@);
        if lo < hi {
            out.push(string_of(&line, lo, hi));
            assert(line_views(out@) =~= before + seq![cut]);
        } else {
            assert(line_views(out@) =~= before + Seq::<Seq<char>>::empty());
        }
        if end == chars.len() {
            assert(line_views(out@) =~= log_lines(text@));
            return out;
        }
        proof {
            assert(rest.skip(end - pos + 1) =~= chars@.skip(end + 1));
            let here = if cut.len() > 0 {
                seq![cut]
            } else {
                Seq::empty()
            };
            assert(before + (here + log_lines(chars@.skip(end + 1))) =~= (before + here)
                + log_lines(chars@.skip(end + 1)));
        }
        pos = end + 1;
    }
}

proof fn lemma_feed(front: Seq<char>, back: Seq<char>, pos: int)
    requires
        !front.contains('\n'),
        0 <= pos <= front.len(),
    ensures
        feed_at(front, pos) == front.len(),
        feed_at(front.push('\n') + back, pos) == front.len(),
    decreases front.len() - pos,
{
    let all = front.push('\n') + back;
    assert(all[front.len() as int] == '\n');
    if pos < front.len() {
        assert(front.contains(front[pos]));
        assert(all[pos] == front[pos]);
        lemma_feed(front, back, pos + 1);
    }
}

/// The records of a log are its lines in order, without the white space
/// around them; a line that holds nothing else is none.
pub proof fn law_log_lines(line: Seq<char>, rest: Seq<char>)
    requires
        !line.contains('\n'),
    ensures
        blank(line) ==> log_lines(line) == Seq::<Seq<char>>::empty() && log_lines(
            line.push('\n') + rest,
        ) == log_lines(rest),
        !blank(line) ==> log_lines(line) == seq![trimmed(line)] && log_lines(
            line.push('\n') + rest,
        ) == seq![trimmed(line)] + log_lines(rest),
{
    lemma_feed(line, rest, 0);
    law_trimmed(line, line, line, line);
    let all = line.push('\n') + rest;
    assert(line.take(line.len() as int) =~= line);
    assert(all.take(line.len() as int) =~= line);
    assert(all.skip(line.len() as int + 1) =~= rest);
    if blank(line) {
        assert(trimmed(line).len() == 0);
        assert(Seq::<Seq<char>>::empty() + log_lines(rest) =~= log_lines(rest));
    }
}

/// Recording counts the one method once more and no other, and leaves the
/// failures alone; a failure counts as nothing but a failure.
pub proof fn law_one_record(v: DriftView, method: Seq<char>, other: Seq<char>)
    requires
        v.count(method) < u64::MAX,
        other != method,
    ensures
        v.recorded(method).count(method) == v.count(method) + 1,
        v.recorded(method).count(other) == v.count(other),
        v.recorded(method).io_errors == v.io_errors,
        v.total < u64::MAX ==> v.recorded(method).total == v.total + 1,
        v.total == u64::MAX ==> v.recorded(method).total == u64::MAX,
        v.failed().count(method) == v.count(method),
        v.failed().total == v.total,
        v.io_errors < u64::MAX ==> v.failed().io_errors == v.io_errors + 1,
        DriftView::none().count(method) == 0 && DriftView::none().total == 0
            && DriftView::none().io_errors == 0,
{
}

} // verus!
