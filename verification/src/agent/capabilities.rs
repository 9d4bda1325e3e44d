//! Capability negotiation.
use crate::agent::types::InitializeResponse;
use crate::text::same_text;
use vstd::prelude::*;

verus! {

/// The characters of a run of strings.
pub open spec fn texts(s: Seq<String>) -> Seq<Seq<char>> {
    Seq::new(s.len(), |i: int| s[i]@)
}

/// The characters of an optional string.
pub open spec fn opt_text(s: Option<String>) -> Option<Seq<char>> {
    match s {
        Some(t) => Some(t@),
        None => None,
    }
}

/// What client and backend have agreed on.
#[derive(Debug, PartialEq, Eq)]
pub struct BackendCapabilities {
    /// Negotiated protocol version, if any.
    pub protocol_version: Option<String>,
    /// Request methods the backend accepts.
    pub supported_methods: Vec<String>,
    /// Notification methods the backend may emit.
    pub supported_notifications: Vec<String>,
}

/// The content of [`BackendCapabilities`].
#[verifier::ext_equal]
pub struct CapabilitiesView {
    pub protocol_version: Option<Seq<char>>,
    pub supported_methods: Seq<Seq<char>>,
    pub supported_notifications: Seq<Seq<char>>,
}

impl View for BackendCapabilities {
    type V = CapabilitiesView;

    open spec fn view(&self) -> CapabilitiesView {
        CapabilitiesView {
            protocol_version: opt_text(self.protocol_version),
            supported_methods: texts(self.supported_methods@),
            supported_notifications: texts(self.supported_notifications@),
        }
    }
}

/// The names of `a` that `b` has too, in the order of `a`.
pub open spec fn common(a: Seq<Seq<char>>, b: Seq<Seq<char>>) -> Seq<Seq<char>>
    decreases a.len(),
{
    if a.len() == 0 {
        Seq::empty()
    } else {
        let front = common(a.drop_last(), b);
        if b.contains(a.last()) {
            front.push(a.last())
        } else {
            front
        }
    }
}

/// Whether a list of names has `name`.
fn has_name(names: &Vec<String>, name: &str) -> (r: bool)
    ensures
        r == texts(names@).contains(name@),
{
    let mut i: usize = 0;
    while i < names.len()
        invariant
            i <= names.len(),
            forall|k: int| 0 <= k < i ==> (#[trigger] names@[k])@ != name@,
        decreases names.len() - i,
    {
        if same_text(names[i].as_str(), name) {
            assert(texts(names@)[i as int] == name@);
            return true;
        }
        i = i + 1;
    }
    assert(forall|k: int| 0 <= k < names@.len() ==> #[trigger] texts(names@)[k] == names@[k]@);
    false
}

/// The names of `a` that `b` has too, in the order of `a`.
fn common_names(a: &Vec<String>, b: &Vec<String>) -> (r: Vec<String>)
    ensures
        texts(r@) == common(texts(a@), texts(b@)),
{
    let ghost names = texts(a@);
    let mut out: Vec<String> = Vec::new();
    let mut i: usize = 0;
    assert(names.take(0) =~= Seq::<Seq<char>>::empty());
    assert(texts(out@) =~= Seq::<Seq<char>>::empty());
    while i < a.len()
        invariant
            i <= a.len(),
            names == texts(a@),
            texts(out@) == common(names.take(i as int), texts(b@)),
        decreases a.len() - i,
    {
        let ghost front = names.take(i + 1);
        let ghost before = out@;
        assert(front.drop_last() =~= names.take(i as int));
        assert(front.last() == a@[i as int]@);
        if has_name(b, a[i].as_str()) {
            let copy = a[i].clone();
            out.push(copy);
            assert(texts(out@) =~= texts(before).push(front.last()));
        }
        i = i + 1;
    }
    assert(names.take(i as int) =~= names);
    out
}

/// Copies a list of names.
pub fn clone_names(a: &Vec<String>) -> (r: Vec<String>)
    ensures
        texts(r@) == texts(a@),
{
    let mut out: Vec<String> = Vec::new();
    let mut i: usize = 0;
    while i < a.len()
        invariant
            i <= a.len(),
            out.len() == i,
            forall|k: int| 0 <= k < i ==> (#[trigger] out@[k])@ == a@[k]@,
        decreases a.len() - i,
    {
        let copy = a[i].clone();
        out.push(copy);
        i = i + 1;
    }
    assert(texts(out@) =~= texts(a@));
    out
}

/// Copies an optional name.
pub fn clone_opt(s: &Option<String>) -> (r: Option<String>)
    ensures
        opt_text(r) == opt_text(*s),
{
    match s {
        Some(t) => Some(t.clone()),
        None => None,
    }
}

impl BackendCapabilities {
    /// Whether the backend accepts the request method `m`.
    pub fn supports_method(&self, m: &str) -> (r: bool)
        ensures
            r == self@.supported_methods.contains(m@),
    {
        has_name(&self.supported_methods, m)
    }

    /// Whether the backend may emit the notification `n`.
    pub fn supports_notification(&self, n: &str) -> (r: bool)
        ensures
            r == self@.supported_notifications.contains(n@),
    {
        has_name(&self.supported_notifications, n)
    }

    /// What `self` and `other` have in common, in the order of `self`. The
    /// protocol version is that of `self`.
    pub fn intersect(&self, other: &BackendCapabilities) -> (r: BackendCapabilities)
        ensures
            r@.protocol_version == self@.protocol_version,
            r@.supported_methods == common(self@.supported_methods, other@.supported_methods),
            r@.supported_notifications == common(
                self@.supported_notifications,
                other@.supported_notifications,
            ),
    {
        BackendCapabilities {
            protocol_version: clone_opt(&self.protocol_version),
            supported_methods: common_names(&self.supported_methods, &other.supported_methods),
            supported_notifications: common_names(
                &self.supported_notifications,
                &other.supported_notifications,
            ),
        }
    }

    /// What a server's answer to the handshake says.
    pub fn of_response(resp: &InitializeResponse) -> (r: BackendCapabilities)
        ensures
            r@.protocol_version == opt_text(resp.protocol_version),
            r@.supported_methods == texts(resp.supported_methods@),
            r@.supported_notifications == texts(resp.supported_notifications@),
    {
        BackendCapabilities {
            protocol_version: clone_opt(&resp.protocol_version),
            supported_methods: clone_names(&resp.supported_methods),
            supported_notifications: clone_names(&resp.supported_notifications),
        }
    }
}

impl Clone for BackendCapabilities {
    fn clone(&self) -> (r: Self)
        ensures
            r@ == self@,
    {
        BackendCapabilities {
            protocol_version: clone_opt(&self.protocol_version),
            supported_methods: clone_names(&self.supported_methods),
            supported_notifications: clone_names(&self.supported_notifications),
        }
    }
}

impl Default for BackendCapabilities {
    fn default() -> (r: Self)
        ensures
            r@.protocol_version is None,
            r@.supported_methods == Seq::<Seq<char>>::empty(),
            r@.supported_notifications == Seq::<Seq<char>>::empty(),
    {
        BackendCapabilities {
            protocol_version: None,
            supported_methods: Vec::new(),
            supported_notifications: Vec::new(),
        }
    }
}

/// A name is common to both lists exactly where both have it.
pub proof fn law_common_is_intersection(a: Seq<Seq<char>>, b: Seq<Seq<char>>, name: Seq<char>)
    ensures
        common(a, b).contains(name) <==> a.contains(name) && b.contains(name),
    decreases a.len(),
{
    if a.len() > 0 {
        let front = a.drop_last();
        law_common_is_intersection(front, b, name);
        let part = common(front, b);
        if a.contains(name) && name != a.last() {
            let w = choose|w: int| 0 <= w < a.len() && a[w] == name;
            assert(front[w] == name);
        }
        if front.contains(name) {
            let w = choose|w: int| 0 <= w < front.len() && front[w] == name;
            assert(a[w] == name);
        }
        assert(a[a.len() - 1] == a.last());
        if part.contains(name) {
            let w = choose|w: int| 0 <= w < part.len() && part[w] == name;
            assert(part.push(a.last())[w] == name);
        }
        if b.contains(a.last()) {
            assert(part.push(a.last())[part.len() as int] == a.last());
        }
    }
}

/// What is common to a list and itself is the list.
pub proof fn law_common_with_self(a: Seq<Seq<char>>)
    ensures
        common(a, a) == a,
{
    lemma_common_superset(a, a);
}

proof fn lemma_common_superset(a: Seq<Seq<char>>, b: Seq<Seq<char>>)
    requires
        forall|i: int| 0 <= i < a.len() ==> b.contains(#[trigger] a[i]),
    ensures
        common(a, b) == a,
    decreases a.len(),
{
    if a.len() > 0 {
        let front = a.drop_last();
        assert forall|i: int| 0 <= i < front.len() implies b.contains(#[trigger] front[i]) by {
            assert(front[i] == a[i]);
        }
        lemma_common_superset(front, b);
        assert(b.contains(a[a.len() - 1]));
        assert(front.push(a.last()) =~= a);
    } else {
        assert(common(a, b) =~= a);
    }
}

/// What is common is taken name by name in the order of the first list: a
/// name that the second has stays, another goes, and those before and behind
/// it are as they would be without.
pub proof fn law_common_keeps_order(
    a: Seq<Seq<char>>,
    name: Seq<char>,
    c: Seq<Seq<char>>,
    b: Seq<Seq<char>>,
)
    ensures
        b.contains(name) ==> common(a + seq![name] + c, b) == common(a, b) + seq![name] + common(
            c,
            b,
        ),
        !b.contains(name) ==> common(a + seq![name] + c, b) == common(a, b) + common(c, b),
    decreases c.len(),
{
    let whole = a + seq![name] + c;
    if c.len() == 0 {
        assert(whole.drop_last() =~= a);
        assert(whole.last() == name);
        if b.contains(name) {
            assert(common(whole, b) =~= common(a, b) + seq![name] + common(c, b));
        } else {
            assert(common(whole, b) =~= common(a, b) + common(c, b));
        }
    } else {
        let front = c.drop_last();
        law_common_keeps_order(a, name, front, b);
        assert(whole.drop_last() =~= a + seq![name] + front);
        assert(whole.last() == c.last());
        if b.contains(name) {
            assert(common(whole, b) =~= common(a, b) + seq![name] + common(c, b));
        } else {
            assert(common(whole, b) =~= common(a, b) + common(c, b));
        }
    }
}

/// What was agreed on stands for its own version, methods and notifications.
pub proof fn law_capabilities_view(c: BackendCapabilities, version: String, i: int)
    ensures
        c.protocol_version == Some(version) ==> c@.protocol_version == Some(version@),
        c.protocol_version is None ==> c@.protocol_version is None,
        c@.supported_methods.len() == c.supported_methods@.len(),
        0 <= i < c.supported_methods@.len() ==> c@.supported_methods[i]
            == c.supported_methods@[i]@,
        c@.supported_notifications.len() == c.supported_notifications@.len(),
        0 <= i < c.supported_notifications@.len() ==> c@.supported_notifications[i]
            == c.supported_notifications@[i]@,
{
}

} // verus!
