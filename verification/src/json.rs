//! JSON values.
use crate::text::same_text;
use vstd::prelude::*;

verus! {

/// `serde_json::Number`.
#[verifier::external_type_specification]
#[verifier::external_body]
pub struct ExNumber(serde_json::Number);

/// `serde_json::Number::clone`: the copy is the same number.
pub assume_specification[ <serde_json::Number as Clone>::clone ](n: &serde_json::Number) -> (r:
    serde_json::Number)
    ensures
        r == *n,
;

/// A JSON number: an integer, or another number as it was read.
#[derive(Debug, PartialEq, Eq)]
pub enum JsonNumber {
    /// An integer that is not negative.
    PosInt(u64),
    /// A negative integer.
    NegInt(i64),
    /// A number that is neither.
    Float(serde_json::Number),
}

impl JsonNumber {
    /// The number of an integer.
    pub open spec fn of_int(n: int) -> JsonNumber {
        if n >= 0 {
            JsonNumber::PosInt(n as u64)
        } else {
            JsonNumber::NegInt(n as i64)
        }
    }
}

impl Clone for JsonNumber {
    fn clone(&self) -> (r: Self)
        ensures
            r == *self,
    {
        match self {
            JsonNumber::PosInt(n) => JsonNumber::PosInt(*n),
            JsonNumber::NegInt(n) => JsonNumber::NegInt(*n),
            JsonNumber::Float(n) => JsonNumber::Float(n.clone()),
        }
    }
}

/// A JSON value. The fields of an object have different names.
#[derive(Debug, PartialEq, Eq)]
pub enum Json {
    Null,
    Bool(bool),
    Number(JsonNumber),
    Str(String),
    Array(Vec<Json>),
    Object(Vec<(String, Json)>),
}

/// The content of a [`Json`] value.
#[verifier::ext_equal]
pub enum JsonView {
    Null,
    Bool(bool),
    Number(JsonNumber),
    Str(Seq<char>),
    Array(Seq<JsonView>),
    Object(Seq<(Seq<char>, JsonView)>),
}

/// The contents of the items of an array.
pub open spec fn item_views(s: Seq<Json>) -> Seq<JsonView>
    decreases s,
{
    Seq::new(s.len(), |i: int| if 0 <= i < s.len() { s[i].model() } else { JsonView::Null })
}

/// The contents of the fields of an object.
pub open spec fn field_views(s: Seq<(String, Json)>) -> Seq<(Seq<char>, JsonView)>
    decreases s,
{
    Seq::new(
        s.len(),
        |i: int|
            if 0 <= i < s.len() {
                (s[i].0@, s[i].1.model())
            } else {
                (Seq::empty(), JsonView::Null)
            },
    )
}

/// The value of the first field of the given name, if any.
pub open spec fn lookup(fields: Seq<(Seq<char>, JsonView)>, key: Seq<char>) -> Option<JsonView>
    decreases fields.len(),
{
    if fields.len() == 0 {
        None
    } else if fields[0].0 == key {
        Some(fields[0].1)
    } else {
        lookup(fields.drop_first(), key)
    }
}

/// The fields with the first field of the given name replaced, or with a new
/// field at the end where there is none.
pub open spec fn put_field(
    fields: Seq<(Seq<char>, JsonView)>,
    key: Seq<char>,
    value: JsonView,
) -> Seq<(Seq<char>, JsonView)>
    decreases fields.len(),
{
    if fields.len() == 0 {
        seq![(key, value)]
    } else if fields[0].0 == key {
        fields.update(0, (key, value))
    } else {
        seq![fields[0]] + put_field(fields.drop_first(), key, value)
    }
}

proof fn lemma_put_at(
    fields: Seq<(Seq<char>, JsonView)>,
    key: Seq<char>,
    value: JsonView,
    at: int,
)
    requires
        0 <= at < fields.len(),
        fields[at].0 == key,
        forall|i: int| 0 <= i < at ==> (#[trigger] fields[i]).0 != key,
    ensures
        put_field(fields, key, value) == fields.update(at, (key, value)),
    decreases fields.len(),
{
    if at > 0 {
        assert(fields[0].0 != key);
        let rest = fields.drop_first();
        assert(rest[at - 1] == fields[at]);
        assert forall|i: int| 0 <= i < at - 1 implies (#[trigger] rest[i]).0 != key by {
            assert(rest[i] == fields[i + 1]);
        }
        lemma_put_at(rest, key, value, at - 1);
        assert(seq![fields[0]] + rest.update(at - 1, (key, value)) =~= fields.update(
            at,
            (key, value),
        ));
    }
}

proof fn lemma_put_new(fields: Seq<(Seq<char>, JsonView)>, key: Seq<char>, value: JsonView)
    requires
        forall|i: int| 0 <= i < fields.len() ==> (#[trigger] fields[i]).0 != key,
    ensures
        put_field(fields, key, value) == fields.push((key, value)),
    decreases fields.len(),
{
    if fields.len() > 0 {
        assert(fields[0].0 != key);
        let rest = fields.drop_first();
        assert forall|i: int| 0 <= i < rest.len() implies (#[trigger] rest[i]).0 != key by {
            assert(rest[i] == fields[i + 1]);
        }
        lemma_put_new(rest, key, value);
        assert(seq![fields[0]] + rest.push((key, value)) =~= fields.push((key, value)));
    } else {
        assert(seq![(key, value)] =~= fields.push((key, value)));
    }
}

/// A field that was put in place is found, and the other fields are as they
/// were.
pub proof fn law_put_field(
    fields: Seq<(Seq<char>, JsonView)>,
    key: Seq<char>,
    value: JsonView,
    other: Seq<char>,
)
    ensures
        lookup(put_field(fields, key, value), key) == Some(value),
        other != key ==> lookup(put_field(fields, key, value), other) == lookup(fields, other),
    decreases fields.len(),
{
    let after = put_field(fields, key, value);
    if fields.len() == 0 {
        assert(after.drop_first() =~= fields);
        assert(lookup(after.drop_first(), other) is None);
    } else if fields[0].0 == key {
        assert(after.drop_first() =~= fields.drop_first());
    } else {
        law_put_field(fields.drop_first(), key, value, other);
        assert(after.drop_first() =~= put_field(fields.drop_first(), key, value));
        assert(after[0] == fields[0]);
    }
}

impl JsonView {
    /// The value with the given field put in place, where it is an object.
    pub open spec fn with(self, key: Seq<char>, value: JsonView) -> JsonView {
        match self {
            JsonView::Object(fields) => JsonView::Object(put_field(fields, key, value)),
            other => other,
        }
    }

    /// The field of the given name, where the value is an object and has it.
    pub open spec fn get(self, key: Seq<char>) -> Option<JsonView> {
        match self {
            JsonView::Object(fields) => lookup(fields, key),
            _ => None,
        }
    }

    /// The text, where the value is a string.
    pub open spec fn as_str(self) -> Option<Seq<char>> {
        match self {
            JsonView::Str(s) => Some(s),
            _ => None,
        }
    }

    /// The text of the given field, where there is one and it is a string.
    pub open spec fn get_str(self, key: Seq<char>) -> Option<Seq<char>> {
        match self.get(key) {
            Some(v) => v.as_str(),
            None => None,
        }
    }
}

/// Whether an optional reference holds the given optional content.
pub open spec fn holds(r: Option<&Json>, v: Option<JsonView>) -> bool {
    match r {
        Some(j) => v == Some(j@),
        None => v is None,
    }
}

/// Whether an optional string has the given optional characters.
pub open spec fn reads(r: Option<&str>, v: Option<Seq<char>>) -> bool {
    match r {
        Some(s) => v == Some(s@),
        None => v is None,
    }
}

impl View for Json {
    type V = JsonView;

    open spec fn view(&self) -> JsonView {
        self.model()
    }
}

impl Json {
    /// The content of this value with every string and list taken by its
    /// view.
    pub open spec fn model(self) -> JsonView
        decreases self,
    {
        match self {
            Json::Null => JsonView::Null,
            Json::Bool(b) => JsonView::Bool(b),
            Json::Number(n) => JsonView::Number(n),
            Json::Str(s) => JsonView::Str(s@),
            Json::Array(v) => JsonView::Array(item_views(v@)),
            Json::Object(v) => JsonView::Object(field_views(v@)),
        }
    }

    /// The field of the given name.
    pub fn get(&self, key: &str) -> (r: Option<&Json>)
        ensures
            holds(r, self@.get(key@)),
    {
        match self {
            Json::Object(fields) => {
                let ghost views = field_views(fields@);
                let mut i: usize = 0;
                assert(views.skip(0) =~= views);
                while i < fields.len()
                    invariant
                        i <= fields.len(),
                        views == field_views(fields@),
                        self@ == JsonView::Object(views),
                        lookup(views.skip(i as int), key@) == lookup(views, key@),
                    decreases fields.len() - i,
                {
                    assert(views.skip(i as int)[0] == views[i as int]);
                    assert(views.skip(i as int).drop_first() =~= views.skip(i + 1));
                    if same_text(fields[i].0.as_str(), key) {
                        return Some(&fields[i].1);
                    }
                    i = i + 1;
                }
                None
            },
            _ => None,
        }
    }

    /// The text of a string.
    pub fn as_str(&self) -> (r: Option<&str>)
        ensures
            reads(r, self@.as_str()),
    {
        match self {
            Json::Str(s) => Some(s.as_str()),
            _ => None,
        }
    }

    /// The text of the given field.
    pub fn get_str(&self, key: &str) -> (r: Option<&str>)
        ensures
            reads(r, self@.get_str(key@)),
    {
        match self.get(key) {
            Some(v) => v.as_str(),
            None => None,
        }
    }

    /// The value with the given field put in place, where it is an object.
    pub fn with(self, key: &str, value: Json) -> (r: Json)
        ensures
            r@ == self@.with(key@, value@),
    {
        let ghost whole = self@;
        match self {
            Json::Object(fields) => {
                let mut fields = fields;
                let ghost views = field_views(fields@);
                let ghost new = (key@, value@);
                let mut i: usize = 0;
                while i < fields.len()
                    invariant
                        i <= fields.len(),
                        views == field_views(fields@),
                        whole == JsonView::Object(views),
                        whole == self@,
                        new == (key@, value@),
                        forall|k: int| 0 <= k < i ==> (#[trigger] views[k]).0 != key@,
                    decreases fields.len() - i,
                {
                    assert(views[i as int].0 == fields@[i as int].0@);
                    if same_text(fields[i].0.as_str(), key) {
                        fields.set(i, (key.to_owned(), value));
                        proof {
                            lemma_put_at(views, key@, new.1, i as int);
                            assert(field_views(fields@) =~= views.update(i as int, new));
                        }
                        return Json::Object(fields);
                    }
                    i = i + 1;
                }
                fields.push((key.to_owned(), value));
                proof {
                    lemma_put_new(views, key@, new.1);
                    assert(field_views(fields@) =~= views.push(new));
                }
                Json::Object(fields)
            },
            other => other,
        }
    }

    /// Whether the value is null.
    pub fn is_null(&self) -> (r: bool)
        ensures
            r == (self@ is Null),
    {
        matches!(self, Json::Null)
    }

    /// An integer.
    pub fn integer(n: i64) -> (r: Json)
        ensures
            r@ == JsonView::Number(JsonNumber::of_int(n as int)),
    {
        if n >= 0 {
            Json::Number(JsonNumber::PosInt(n as u64))
        } else {
            Json::Number(JsonNumber::NegInt(n))
        }
    }

    /// A string.
    pub fn text(s: &str) -> (r: Json)
        ensures
            r@ == JsonView::Str(s@),
    {
        Json::Str(s.to_owned())
    }

    /// An object with the given fields.
    pub fn object(fields: Vec<(String, Json)>) -> (r: Json)
        ensures
            r@ == JsonView::Object(field_views(fields@)),
    {
        Json::Object(fields)
    }
}

/// Adds a field at the end.
pub fn push_field(fields: &mut Vec<(String, Json)>, key: &str, value: Json)
    ensures
        field_views(final(fields)@) == field_views(old(fields)@).push((key@, value@)),
{
    let ghost before = field_views(fields@);
    let ghost new = (key@, value@);
    fields.push((key.to_owned(), value));
    assert(field_views(fields@) =~= before.push(new));
}

/// An object with one field.
pub fn object1(k1: &str, v1: Json) -> (r: Json)
    ensures
        r@ == JsonView::Object(seq![(k1@, v1@)]),
{
    let ghost views = seq![(k1@, v1@)];
    let mut fields: Vec<(String, Json)> = Vec::new();
    fields.push((k1.to_owned(), v1));
    assert(field_views(fields@) =~= views);
    Json::Object(fields)
}

/// An object with two fields.
pub fn object2(k1: &str, v1: Json, k2: &str, v2: Json) -> (r: Json)
    ensures
        r@ == JsonView::Object(seq![(k1@, v1@), (k2@, v2@)]),
{
    let ghost views = seq![(k1@, v1@), (k2@, v2@)];
    let mut fields: Vec<(String, Json)> = Vec::new();
    fields.push((k1.to_owned(), v1));
    fields.push((k2.to_owned(), v2));
    assert(field_views(fields@) =~= views);
    Json::Object(fields)
}

/// An object with three fields.
pub fn object3(k1: &str, v1: Json, k2: &str, v2: Json, k3: &str, v3: Json) -> (r: Json)
    ensures
        r@ == JsonView::Object(seq![(k1@, v1@), (k2@, v2@), (k3@, v3@)]),
{
    let ghost views = seq![(k1@, v1@), (k2@, v2@), (k3@, v3@)];
    let mut fields: Vec<(String, Json)> = Vec::new();
    fields.push((k1.to_owned(), v1));
    fields.push((k2.to_owned(), v2));
    fields.push((k3.to_owned(), v3));
    assert(field_views(fields@) =~= views);
    Json::Object(fields)
}

/// An object with four fields.
pub fn object4(
    k1: &str,
    v1: Json,
    k2: &str,
    v2: Json,
    k3: &str,
    v3: Json,
    k4: &str,
    v4: Json,
) -> (r: Json)
    ensures
        r@ == JsonView::Object(seq![(k1@, v1@), (k2@, v2@), (k3@, v3@), (k4@, v4@)]),
{
    let ghost views = seq![(k1@, v1@), (k2@, v2@), (k3@, v3@), (k4@, v4@)];
    let mut fields: Vec<(String, Json)> = Vec::new();
    fields.push((k1.to_owned(), v1));
    fields.push((k2.to_owned(), v2));
    fields.push((k3.to_owned(), v3));
    fields.push((k4.to_owned(), v4));
    assert(field_views(fields@) =~= views);
    Json::Object(fields)
}

/// An array of strings.
pub fn text_array<const N: usize>(items: [&str; N]) -> (r: Json)
    ensures
        r@ == JsonView::Array(Seq::new(N as nat, |i: int| JsonView::Str(items@[i]@))),
{
    let mut out: Vec<Json> = Vec::new();
    let mut i: usize = 0;
    while i < N
        invariant
            i <= N,
            out.len() == i,
            forall|k: int| 0 <= k < i ==> (#[trigger] out@[k]).model() == JsonView::Str(items@[k]@),
        decreases N - i,
    {
        out.push(Json::text(items[i]));
        i = i + 1;
    }
    assert(item_views(out@) =~= Seq::new(N as nat, |i: int| JsonView::Str(items@[i]@)));
    Json::Array(out)
}

/// Copies the items of an array.
fn clone_items(v: &Vec<Json>) -> (r: Vec<Json>)
    ensures
        item_views(r@) == item_views(v@),
    decreases v,
{
    let mut out: Vec<Json> = Vec::new();
    let mut i: usize = 0;
    while i < v.len()
        invariant
            i <= v.len(),
            out.len() == i,
            forall|j: int| 0 <= j < i ==> (#[trigger] out@[j]).model() == v@[j].model(),
        decreases v.len() - i,
    {
        let c = v[i].clone();
        out.push(c);
        i = i + 1;
    }
    out
}

/// Copies the fields of an object.
fn clone_fields(v: &Vec<(String, Json)>) -> (r: Vec<(String, Json)>)
    ensures
        field_views(r@) == field_views(v@),
    decreases v,
{
    let mut out: Vec<(String, Json)> = Vec::new();
    let mut i: usize = 0;
    while i < v.len()
        invariant
            i <= v.len(),
            out.len() == i,
            forall|j: int|
                0 <= j < i ==> (#[trigger] out@[j]).0@ == v@[j].0@ && out@[j].1.model()
                    == v@[j].1.model(),
        decreases v.len() - i,
    {
        let name = v[i].0.clone();
        let value = v[i].1.clone();
        out.push((name, value));
        i = i + 1;
    }
    out
}

impl Clone for Json {
    fn clone(&self) -> (r: Self)
        ensures
            r.model() == self.model(),
        decreases self,
    {
        match self {
            Json::Null => Json::Null,
            Json::Bool(b) => Json::Bool(*b),
            Json::Number(n) => Json::Number(n.clone()),
            Json::Str(s) => Json::Str(s.clone()),
            Json::Array(v) => Json::Array(clone_items(v)),
            Json::Object(v) => Json::Object(clone_fields(v)),
        }
    }
}

/// Whether the first field of the given name stands at `at`.
pub open spec fn stands_first(
    fields: Seq<(Seq<char>, JsonView)>,
    key: Seq<char>,
    at: int,
) -> bool {
    &&& 0 <= at < fields.len()
    &&& fields[at].0 == key
    &&& forall|i: int| 0 <= i < at ==> (#[trigger] fields[i]).0 != key
}

/// Whether a value is an object whose first field of the given name holds
/// `value`.
pub open spec fn has_field(v: JsonView, key: Seq<char>, value: JsonView) -> bool {
    v matches JsonView::Object(fields) && exists|at: int| #[trigger]
        stands_first(fields, key, at) && fields[at].1 == value
}

/// Whether a value is no object, or one without a field of the given name.
pub open spec fn lacks_field(v: JsonView, key: Seq<char>) -> bool {
    v matches JsonView::Object(fields) ==> forall|i: int|
        0 <= i < fields.len() ==> (#[trigger] fields[i]).0 != key
}

proof fn lemma_lookup_at(fields: Seq<(Seq<char>, JsonView)>, key: Seq<char>, at: int)
    requires
        stands_first(fields, key, at),
    ensures
        lookup(fields, key) == Some(fields[at].1),
    decreases fields.len(),
{
    if at > 0 {
        assert(fields[0].0 != key);
        let rest = fields.drop_first();
        assert forall|i: int| 0 <= i < at - 1 implies (#[trigger] rest[i]).0 != key by {
            assert(rest[i] == fields[i + 1]);
        }
        lemma_lookup_at(rest, key, at - 1);
    }
}

proof fn lemma_lookup_none(fields: Seq<(Seq<char>, JsonView)>, key: Seq<char>)
    requires
        forall|i: int| 0 <= i < fields.len() ==> (#[trigger] fields[i]).0 != key,
    ensures
        lookup(fields, key) is None,
    decreases fields.len(),
{
    if fields.len() > 0 {
        assert(fields[0].0 != key);
        let rest = fields.drop_first();
        assert forall|i: int| 0 <= i < rest.len() implies (#[trigger] rest[i]).0 != key by {
            assert(rest[i] == fields[i + 1]);
        }
        lemma_lookup_none(rest, key);
    }
}

/// A field is found where an object has it, with its value, the first of those
/// with one name; elsewhere none is found. Its text is found where it is a
/// string.
pub proof fn law_get(v: JsonView, key: Seq<char>, value: JsonView)
    ensures
        has_field(v, key, value) ==> v.get(key) == Some(value),
        lacks_field(v, key) ==> v.get(key) is None && v.get_str(key) is None,
        v.get(key) == Some(value) ==> has_field(v, key, value),
        has_field(v, key, value) && value is Str ==> v.get_str(key) == Some(value->Str_0),
        has_field(v, key, value) && !(value is Str) ==> v.get_str(key) is None,
        v.get_str(key) matches Some(s) ==> has_field(v, key, JsonView::Str(s)),
{
    if let JsonView::Object(fields) = v {
        if has_field(v, key, value) {
            let at = choose|at: int| #[trigger]
                stands_first(fields, key, at) && fields[at].1 == value;
            lemma_lookup_at(fields, key, at);
        }
        if lacks_field(v, key) {
            lemma_lookup_none(fields, key);
        }
        if v.get(key) is Some {
            lemma_lookup_found(fields, key);
        }
    }
}

proof fn lemma_lookup_found(fields: Seq<(Seq<char>, JsonView)>, key: Seq<char>)
    requires
        lookup(fields, key) is Some,
    ensures
        exists|at: int| #[trigger]
            stands_first(fields, key, at) && fields[at].1 == lookup(fields, key)->Some_0,
    decreases fields.len(),
{
    if fields[0].0 == key {
        assert(stands_first(fields, key, 0));
    } else {
        let rest = fields.drop_first();
        lemma_lookup_found(rest, key);
        let at = choose|at: int| #[trigger]
            stands_first(rest, key, at) && rest[at].1 == lookup(rest, key)->Some_0;
        assert forall|i: int| 0 <= i < at + 1 implies (#[trigger] fields[i]).0 != key by {
            if i > 0 {
                assert(rest[i - 1] == fields[i]);
            }
        }
        assert(stands_first(fields, key, at + 1));
    }
}

/// Putting a field into an object leaves the other fields where they were: it
/// takes the place of the field of its name, or stands at the end.
pub proof fn law_put_field_place(
    fields: Seq<(Seq<char>, JsonView)>,
    key: Seq<char>,
    value: JsonView,
    at: int,
)
    ensures
        stands_first(fields, key, at) ==> JsonView::Object(fields).with(key, value)
            == JsonView::Object(fields.update(at, (key, value))),
        lacks_field(JsonView::Object(fields), key) ==> JsonView::Object(fields).with(key, value)
            == JsonView::Object(fields.push((key, value))),
{
    if stands_first(fields, key, at) {
        lemma_put_at(fields, key, value, at);
    }
    if lacks_field(JsonView::Object(fields), key) {
        lemma_put_new(fields, key, value);
    }
}

/// An integer is held with its sign: those below zero apart from the others.
pub proof fn law_integers(n: i64, m: i64)
    ensures
        n >= 0 ==> JsonNumber::of_int(n as int) == JsonNumber::PosInt(n as u64),
        n < 0 ==> JsonNumber::of_int(n as int) == JsonNumber::NegInt(n),
        JsonNumber::of_int(n as int) == JsonNumber::of_int(m as int) <==> n == m,
{
}

/// A value stands for the value of its own kind, with its own text, items and
/// fields, in order.
pub proof fn law_json_views(
    flag: bool,
    number: JsonNumber,
    text: String,
    items: Vec<Json>,
    fields: Vec<(String, Json)>,
    i: int,
)
    ensures
        Json::Null@ == JsonView::Null,
        Json::Bool(flag)@ == JsonView::Bool(flag),
        Json::Number(number)@ == JsonView::Number(number),
        Json::Str(text)@ == JsonView::Str(text@),
        Json::Array(items)@ == JsonView::Array(item_views(items@)),
        Json::Object(fields)@ == JsonView::Object(field_views(fields@)),
        item_views(items@).len() == items@.len(),
        0 <= i < items@.len() ==> item_views(items@)[i] == items@[i]@,
        field_views(fields@).len() == fields@.len(),
        0 <= i < fields@.len() ==> field_views(fields@)[i] == (fields@[i].0@, fields@[i].1@),
{
}

/// What is handed out is there exactly where the value has it, and is the
/// value's own.
pub proof fn law_handed_out(
    r: Option<&Json>,
    v: Option<JsonView>,
    s: Option<&str>,
    text: Option<Seq<char>>,
)
    ensures
        holds(r, v) ==> (r is Some <==> v is Some),
        holds(r, v) && r is Some ==> v->Some_0 == r->Some_0@,
        reads(s, text) ==> (s is Some <==> text is Some),
        reads(s, text) && s is Some ==> text->Some_0 == s->Some_0@,
{
}

/// Only a string is read as one, and as its own text.
pub proof fn law_strings(v: JsonView, s: Seq<char>)
    ensures
        JsonView::Str(s).as_str() == Some(s),
        !(v is Str) ==> v.as_str() is None,
{
}

/// A field is put into an object only; anything else stays as it is.
pub proof fn law_with(
    v: JsonView,
    fields: Seq<(Seq<char>, JsonView)>,
    key: Seq<char>,
    value: JsonView,
)
    ensures
        !(v is Object) ==> v.with(key, value) == v,
        JsonView::Object(fields).with(key, value) == JsonView::Object(
            put_field(fields, key, value),
        ),
        has_field(JsonView::Object(fields).with(key, value), key, value),
{
    let after = put_field(fields, key, value);
    if exists|at: int| stands_first(fields, key, at) {
        let at = choose|at: int| stands_first(fields, key, at);
        lemma_put_at(fields, key, value, at);
        let put = JsonView::Object(after);
        assert(stands_first(put->Object_0, key, at) && put->Object_0[at].1 == value);
        assert(has_field(put, key, value));
    } else {
        assert forall|i: int| 0 <= i < fields.len() implies (#[trigger] fields[i]).0 != key by {
            lemma_no_first(fields, key, i);
        }
        lemma_put_new(fields, key, value);
        let last = fields.len() as int;
        let put = JsonView::Object(after);
        assert(stands_first(put->Object_0, key, last) && put->Object_0[last].1 == value);
        assert(has_field(put, key, value));
    }
}

proof fn lemma_no_first(fields: Seq<(Seq<char>, JsonView)>, key: Seq<char>, i: int)
    requires
        0 <= i < fields.len(),
        forall|at: int| !stands_first(fields, key, at),
    ensures
        fields[i].0 != key,
    decreases i,
{
    if fields[i].0 == key {
        assert forall|k: int| 0 <= k < i implies (#[trigger] fields[k]).0 != key by {
            lemma_no_first(fields, key, k);
        }
        assert(stands_first(fields, key, i));
    }
}

} // verus!
