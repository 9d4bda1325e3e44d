//! Server notifications that survive even where they are not recognised.
//!
//! A registry of known methods splits notifications into known and unknown
//! ones. Both keep the method and the parameters as received, so that a newer
//! server does not break an older client.
use crate::agent::capabilities::{clone_names, texts};
use crate::json::{Json, JsonView};
use crate::text::same_text;
use vstd::prelude::*;
use vstd::seq_lib::seq_to_set_is_finite;

verus! {

/// A notification from the server.
#[derive(Debug, Clone, PartialEq, Eq)]
pub enum IncomingServerNotification {
    /// A notification whose method is in the registry.
    Known(KnownNotification),
    /// A notification whose method is not.
    Unknown(UnknownNotification),
}

/// A notification that the registry recognises.
#[derive(Debug, Clone, PartialEq, Eq)]
pub struct KnownNotification {
    /// The method as received.
    pub method: String,
    /// The parameters as received, null where there were none.
    pub params: Json,
    /// The method as the registry has it.
    pub recognised_as: Option<String>,
}

/// A notification that the registry does not recognise.
#[derive(Debug, Clone, PartialEq, Eq)]
pub struct UnknownNotification {
    /// The method as received.
    pub method: String,
    /// The parameters as received, null where there were none.
    pub params: Json,
}

/// The methods that are recognised.
#[derive(Debug)]
pub struct KnownVariantRegistry {
    methods: Vec<String>,
}

/// The characters of a run of names.
pub open spec fn names_of<'a>(s: Seq<&'a str>) -> Seq<Seq<char>> {
    Seq::new(s.len(), |i: int| s[i]@)
}

impl KnownVariantRegistry {
    /// The recognised methods.
    pub closed spec fn view(&self) -> Set<Seq<char>> {
        texts(self.methods@).to_set()
    }

    /// No method is listed twice.
    #[verifier::type_invariant]
    spec fn wf(self) -> bool {
        texts(self.methods@).no_duplicates()
    }

    /// The registry that recognises nothing.
    pub fn new() -> (r: KnownVariantRegistry)
        ensures
            r@ == Set::<Seq<char>>::empty(),
            r@.finite(),
    {
        let r = KnownVariantRegistry { methods: Vec::new() };
        assert(r@ =~= Set::<Seq<char>>::empty());
        r
    }

    /// Where `method` is listed.
    fn position(&self, method: &str) -> (r: Option<usize>)
        ensures
            match r {
                Some(i) => i < self.methods.len() && self.methods@[i as int]@ == method@,
                None => !self@.contains(method@),
            },
    {
        let ghost names = texts(self.methods@);
        let mut i: usize = 0;
        while i < self.methods.len()
            invariant
                i <= self.methods.len(),
                names == texts(self.methods@),
                forall|k: int| 0 <= k < i ==> #[trigger] names[k] != method@,
            decreases self.methods.len() - i,
        {
            if same_text(self.methods[i].as_str(), method) {
                return Some(i);
            }
            assert(names[i as int] == self.methods@[i as int]@);
            i = i + 1;
        }
        None
    }

    /// Adds `method`. Where it is recognised already, nothing changes.
    pub fn with_method(self, method: &str) -> (r: KnownVariantRegistry)
        ensures
            r@ == self@.insert(method@),
            self@.finite(),
            r@.finite(),
            r@.len() == self@.len() + (if self@.contains(method@) {
                0nat
            } else {
                1nat
            }),
    {
        proof {
            use_type_invariant(&self);
            seq_to_set_is_finite(texts(self.methods@));
        }
        let ghost before = texts(self.methods@);
        match self.position(method) {
            Some(i) => {
                proof {
                    assert(before[i as int] == method@);
                    assert(before.to_set().insert(method@) =~= before.to_set());
                }
                self
            },
            None => {
                let mut methods = self.methods;
                methods.push(method.to_owned());
                proof {
                    let after = texts(methods@);
                    assert(after =~= before.push(method@));
                    assert forall|i: int, j: int|
                        0 <= i < after.len() && 0 <= j < after.len() && i != j implies after[i]
                        != after[j] by {
                        if i == before.len() {
                            assert(before.to_set().contains(before[j]));
                        } else if j == before.len() {
                            assert(before.to_set().contains(before[i]));
                        }
                    }
                    assert forall|x: Seq<char>|
                        after.to_set().contains(x) <==> before.to_set().insert(method@).contains(
                            x,
                        ) by {
                        if before.contains(x) {
                            let w = choose|w: int| 0 <= w < before.len() && before[w] == x;
                            assert(after[w] == x);
                        }
                        if x == method@ {
                            assert(after[before.len() as int] == x);
                        }
                        if after.contains(x) {
                            let w = choose|w: int| 0 <= w < after.len() && after[w] == x;
                            if w < before.len() {
                                assert(before[w] == x);
                            }
                        }
                    }
                    assert(after.to_set() =~= before.to_set().insert(method@));
                }
                KnownVariantRegistry { methods }
            },
        }
    }

    /// Adds every one of `methods`.
    pub fn with_methods<const N: usize>(self, methods: [&str; N]) -> (r: KnownVariantRegistry)
        ensures
            r@ == self@.union(names_of(methods@).to_set()),
            self@.finite(),
            r@.finite(),
    {
        proof {
            seq_to_set_is_finite(texts(self.methods@));
            seq_to_set_is_finite(names_of(methods@));
        }
        let ghost first = self@;
        let ghost names = names_of(methods@);
        let mut out = self;
        let mut i: usize = 0;
        assert(first.union(names.take(0).to_set()) =~= first);
        while i < N
            invariant
                i <= N,
                names == names_of(methods@),
                out@ == first.union(names.take(i as int).to_set()),
            decreases N - i,
        {
            out = out.with_method(methods[i]);
            proof {
                let front = names.take(i as int);
                let wider = names.take(i + 1);
                assert(wider =~= front.push(names[i as int]));
                assert forall|x: Seq<char>|
                    wider.to_set().contains(x) <==> front.to_set().contains(x) || x
                        == names[i as int] by {
                    if front.contains(x) {
                        let w = choose|w: int| 0 <= w < front.len() && front[w] == x;
                        assert(wider[w] == x);
                    }
                    if x == names[i as int] {
                        assert(wider[i as int] == x);
                    }
                    if wider.contains(x) {
                        let w = choose|w: int| 0 <= w < wider.len() && wider[w] == x;
                        if w < i {
                            assert(front[w] == x);
                        }
                    }
                }
                assert(first.union(wider.to_set()) =~= first.union(front.to_set()).insert(
                    names[i as int],
                ));
            }
            i = i + 1;
        }
        assert(names.take(N as int) =~= names);
        out
    }

    /// Whether `method` is recognised.
    pub fn contains(&self, method: &str) -> (r: bool)
        ensures
            r == self@.contains(method@),
    {
        match self.position(method) {
            Some(i) => {
                assert(texts(self.methods@)[i as int] == method@);
                true
            },
            None => false,
        }
    }

    /// `method` as the registry has it.
    pub fn canonical(&self, method: &str) -> (r: Option<&str>)
        ensures
            match r {
                Some(s) => s@ == method@ && self@.contains(method@),
                None => !self@.contains(method@),
            },
    {
        match self.position(method) {
            Some(i) => {
                assert(texts(self.methods@)[i as int] == method@);
                Some(self.methods[i].as_str())
            },
            None => None,
        }
    }

    /// How many methods are recognised.
    pub fn len(&self) -> (r: usize)
        ensures
            r == self@.len(),
            self@.finite(),
    {
        proof {
            use_type_invariant(self);
            seq_to_set_is_finite(texts(self.methods@));
            texts(self.methods@).unique_seq_to_set();
        }
        self.methods.len()
    }

    /// Whether nothing is recognised.
    pub fn is_empty(&self) -> (r: bool)
        ensures
            r == (self@ == Set::<Seq<char>>::empty()),
    {
        proof {
            let names = texts(self.methods@);
            if names.len() > 0 {
                assert(names.to_set().contains(names[0]));
            } else {
                assert(names.to_set() =~= Set::<Seq<char>>::empty());
            }
        }
        self.methods.len() == 0
    }
}

impl Clone for KnownVariantRegistry {
    fn clone(&self) -> (r: Self)
        ensures
            r@ == self@,
    {
        proof {
            use_type_invariant(self);
        }
        KnownVariantRegistry { methods: clone_names(&self.methods) }
    }
}

impl Default for KnownVariantRegistry {
    fn default() -> (r: Self)
        ensures
            r@ == Set::<Seq<char>>::empty(),
    {
        KnownVariantRegistry::new()
    }
}

/// Adding a method that is recognised changes nothing, adding another adds
/// one, and nothing else becomes recognised.
pub proof fn law_methods_count_once(known: Set<Seq<char>>, method: Seq<char>, other: Seq<char>)
    requires
        known.finite(),
    ensures
        known.insert(method).insert(method) == known.insert(method),
        known.insert(method).contains(other) <==> other == method || known.contains(other),
        known.insert(method).len() == known.len() + (if known.contains(method) {
            0nat
        } else {
            1nat
        }),
{
    assert(known.insert(method).insert(method) =~= known.insert(method));
    if known.contains(method) {
        assert(known.insert(method) =~= known);
    }
}

impl IncomingServerNotification {
    /// The method as received.
    pub open spec fn method_text(&self) -> Seq<char> {
        match self {
            IncomingServerNotification::Known(k) => k.method@,
            IncomingServerNotification::Unknown(u) => u.method@,
        }
    }

    /// The parameters as received.
    pub open spec fn params_view(&self) -> JsonView {
        match self {
            IncomingServerNotification::Known(k) => k.params@,
            IncomingServerNotification::Unknown(u) => u.params@,
        }
    }

    /// Whether this is what a method and parameters become under a registry:
    /// known, and marked with the method, exactly where the registry has it.
    pub open spec fn is_classified(
        &self,
        method: Seq<char>,
        params: JsonView,
        known: Set<Seq<char>>,
    ) -> bool {
        &&& self.method_text() == method
        &&& self.params_view() == params
        &&& (self is Known <==> known.contains(method))
        &&& self matches IncomingServerNotification::Known(k) ==> k.recognised_as matches Some(s)
            && s@ == method
    }

    /// The method as received.
    pub fn method(&self) -> (r: &str)
        ensures
            r@ == self.method_text(),
    {
        match self {
            IncomingServerNotification::Known(k) => k.method.as_str(),
            IncomingServerNotification::Unknown(u) => u.method.as_str(),
        }
    }

    /// Whether the method is not recognised.
    pub fn is_unknown(&self) -> (r: bool)
        ensures
            r == (self is Unknown),
    {
        matches!(self, IncomingServerNotification::Unknown(_))
    }

    /// The parameters as received.
    pub fn params(&self) -> (r: &Json)
        ensures
            r@ == self.params_view(),
    {
        match self {
            IncomingServerNotification::Known(k) => &k.params,
            IncomingServerNotification::Unknown(u) => &u.params,
        }
    }

    /// Sorts a notification by the registry.
    pub fn classify(method: &str, params: Json, registry: &KnownVariantRegistry) -> (r:
        IncomingServerNotification)
        ensures
            r.is_classified(method@, params@, registry@),
    {
        match registry.canonical(method) {
            Some(canonical) => IncomingServerNotification::Known(
                KnownNotification {
                    method: method.to_owned(),
                    params,
                    recognised_as: Some(canonical.to_owned()),
                },
            ),
            None => IncomingServerNotification::Unknown(
                UnknownNotification { method: method.to_owned(), params },
            ),
        }
    }
}

/// A notification keeps its method and its parameters, whether or not it is
/// recognised; it is known, under the very method, exactly where the registry
/// has that method.
pub proof fn law_classified(
    n: IncomingServerNotification,
    method: Seq<char>,
    params: JsonView,
    known: Set<Seq<char>>,
)
    requires
        n.is_classified(method, params, known),
    ensures
        known.contains(method) ==> (n matches IncomingServerNotification::Known(k) && k.method@
            == method && k.params@ == params && (k.recognised_as matches Some(s) && s@ == method)),
        !known.contains(method) ==> (n matches IncomingServerNotification::Unknown(u) && u.method@
            == method && u.params@ == params),
        n.method_text() == method,
        n.params_view() == params,
{
}

} // verus!
