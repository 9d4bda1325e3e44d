//! JSON text: reading it into values, and writing values as text.
use crate::json::{field_views, item_views, lookup, Json, JsonNumber, JsonView};
use crate::text::{
    law_text_order_total, law_text_order_transitive, text_less, trimmed, utf8_text,
};
use serde_json::{Error, Value};
use vstd::prelude::*;
use vstd::utf8::{decode_utf8, encode_utf8, encode_utf8_decode_utf8, encode_utf8_valid_utf8};

verus! {

/// `serde_json::Value`.
#[verifier::external_type_specification]
#[verifier::external_body]
pub struct ExValue(serde_json::Value);

/// `serde_json::Error`.
#[verifier::external_type_specification]
#[verifier::external_body]
pub struct ExError(serde_json::Error);

/// What a `serde_json::Value` holds, with the fields of an object in the order
/// in which they are kept.
pub uninterp spec fn value_json(v: Value) -> JsonView;

/// What a `serde_json::Number` holds.
pub uninterp spec fn number_json(n: serde_json::Number) -> JsonNumber;

/// What reading a JSON text gives.
pub uninterp spec fn parsed_text(text: Seq<char>) -> Result<JsonView, Error>;

/// What reading JSON bytes gives.
pub uninterp spec fn parsed_bytes(bytes: Seq<u8>) -> Result<JsonView, Error>;

/// The bytes that a value is written as.
pub uninterp spec fn written(v: JsonView) -> Seq<u8>;

/// What is said of an error.
pub uninterp spec fn error_text(e: Error) -> Seq<char>;

/// A value taken apart by one level.
pub enum Parts {
    Null,
    Bool(bool),
    Number(serde_json::Number),
    Text(String),
    List(Vec<Value>),
    Fields(Vec<(String, Value)>),
}

/// What the items of a list hold.
pub open spec fn list_json(s: Seq<Value>) -> Seq<JsonView> {
    Seq::new(s.len(), |i: int| value_json(s[i]))
}

/// What the fields of an object hold.
pub open spec fn fields_json(s: Seq<(String, Value)>) -> Seq<(Seq<char>, JsonView)> {
    Seq::new(s.len(), |i: int| (s[i].0@, value_json(s[i].1)))
}

/// What a value that was taken apart holds.
pub open spec fn parts_json(p: Parts) -> JsonView {
    match p {
        Parts::Null => JsonView::Null,
        Parts::Bool(b) => JsonView::Bool(b),
        Parts::Number(n) => JsonView::Number(number_json(n)),
        Parts::Text(s) => JsonView::Str(s@),
        Parts::List(items) => JsonView::Array(list_json(items@)),
        Parts::Fields(fields) => JsonView::Object(fields_json(fields@)),
    }
}

/// The fields with one more, in the order of the names; it takes the place of
/// one with the same name.
pub open spec fn inserted(
    fields: Seq<(Seq<char>, JsonView)>,
    name: Seq<char>,
    value: JsonView,
) -> Seq<(Seq<char>, JsonView)>
    decreases fields.len(),
{
    if fields.len() == 0 {
        seq![(name, value)]
    } else if fields[0].0 == name {
        fields.update(0, (name, value))
    } else if text_less(name, fields[0].0) {
        seq![(name, value)] + fields
    } else {
        seq![fields[0]] + inserted(fields.drop_first(), name, value)
    }
}

/// The fields that an object keeps of a run of fields: in the order of the
/// names, and of two with one name the later.
pub open spec fn collected(fields: Seq<(Seq<char>, JsonView)>) -> Seq<(Seq<char>, JsonView)>
    decreases fields.len(),
{
    if fields.len() == 0 {
        Seq::empty()
    } else {
        inserted(collected(fields.drop_last()), fields.last().0, fields.last().1)
    }
}

/// Whether reading back what was written of a value gives the value: it holds
/// integers only, and arrays and objects stand at most `depth` deep in each
/// other.
pub open spec fn rereads_within(v: JsonView, depth: nat) -> bool
    decreases v,
{
    match v {
        JsonView::Number(n) => !(n is Float),
        JsonView::Array(items) => depth > 0 && forall|i: int|
            0 <= i < items.len() ==> rereads_within(#[trigger] items[i], (depth - 1) as nat),
        JsonView::Object(fields) => depth > 0 && forall|i: int|
            0 <= i < fields.len() ==> rereads_within((#[trigger] fields[i]).1, (depth - 1) as nat),
        _ => true,
    }
}

/// How deep arrays and objects may stand in each other to be read.
pub const MAX_DEPTH: usize = 127;

/// Whether reading back what was written of a value gives the value.
pub open spec fn rereads(v: JsonView) -> bool {
    rereads_within(v, MAX_DEPTH as nat)
}

/// Whether bytes are a text on one line that is not blank and has no white
/// space at its ends.
pub open spec fn is_line(bytes: Seq<u8>, text: Seq<char>) -> bool {
    &&& bytes == encode_utf8(text)
    &&& text.len() > 0
    &&& trimmed(text) == text
    &&& forall|i: int| 0 <= i < text.len() ==> #[trigger] text[i] != '\n'
}

/// Whether bytes are a text on one line.
pub open spec fn is_text_line(bytes: Seq<u8>) -> bool {
    exists|text: Seq<char>| is_line(bytes, text)
}

/// Whether reading bytes gives a value, and so does reading the text that they
/// are.
pub open spec fn reads_back(bytes: Seq<u8>, v: JsonView) -> bool {
    &&& parsed_bytes(bytes) == Ok::<JsonView, Error>(v)
    &&& forall|text: Seq<char>| #[trigger]
        is_line(bytes, text) ==> parsed_text(text) == Ok::<JsonView, Error>(v)
}

/// Calls `serde_json::from_str` for a `Value`. What comes out depends on the
/// text alone.
#[verifier::external_body]
fn parse_text(text: &str) -> (r: Result<Value, Error>)
    ensures
        match r {
            Ok(v) => parsed_text(text@) == Ok::<JsonView, Error>(value_json(v)),
            Err(e) => parsed_text(text@) == Err::<JsonView, Error>(e),
        },
{
    serde_json::from_str(text)
}

/// Calls `serde_json::from_slice` for a `Value`. What comes out depends on the
/// bytes alone.
#[verifier::external_body]
fn parse_bytes(bytes: &[u8]) -> (r: Result<Value, Error>)
    ensures
        match r {
            Ok(v) => parsed_bytes(bytes@) == Ok::<JsonView, Error>(value_json(v)),
            Err(e) => parsed_bytes(bytes@) == Err::<JsonView, Error>(e),
        },
{
    serde_json::from_slice(bytes)
}

/// Calls `serde_json::to_vec` for a `Value`, which writes its content without
/// failing: strings are the only names of fields, and a `Vec` takes every
/// byte. The output is one line of UTF-8 without white space around it. Read
/// back, it gives the same content where that holds integers only and is not
/// nested beyond the depth at which reading stops.
#[verifier::external_body]
fn write_value(v: &Value) -> (r: Result<Vec<u8>, Error>)
    ensures
        match r {
            Ok(b) => b@ == written(value_json(*v)) && is_text_line(b@) && (rereads(value_json(*v))
                ==> reads_back(b@, value_json(*v))),
            Err(_) => false,
        },
{
    serde_json::to_vec(v)
}

/// Takes a `serde_json::Value` apart by its variant; the fields of an object
/// come in the order in which its map is walked. What a `Value` holds is as
/// [`make_value`] would hold it: objects have their fields in the order of the
/// names, each name once, and numbers are told apart as [`open_number`] does.
#[verifier::external_body]
fn open_value(v: Value) -> (r: Parts)
    ensures
        value_json(v) == parts_json(r),
        canonical(parts_json(r)) == parts_json(r),
{
    match v {
        Value::Null => Parts::Null,
        Value::Bool(b) => Parts::Bool(b),
        Value::Number(n) => Parts::Number(n),
        Value::String(s) => Parts::Text(s),
        Value::Array(items) => Parts::List(items),
        Value::Object(fields) => Parts::Fields(fields.into_iter().collect()),
    }
}

/// Makes a `serde_json::Value` of its parts. An object is a `serde_json::Map`,
/// which keeps its fields in the order of their names and of two fields with
/// one name the later.
#[verifier::external_body]
fn make_value(p: Parts) -> (r: Value)
    ensures
        value_json(r) == (match p {
            Parts::Fields(fields) => JsonView::Object(collected(fields_json(fields@))),
            other => parts_json(other),
        }),
{
    match p {
        Parts::Null => Value::Null,
        Parts::Bool(b) => Value::Bool(b),
        Parts::Number(n) => Value::Number(n),
        Parts::Text(s) => Value::String(s),
        Parts::List(items) => Value::Array(items),
        Parts::Fields(fields) => Value::Object(fields.into_iter().collect()),
    }
}

/// Tells the kinds of a `serde_json::Number` apart with `as_u64` and `as_i64`;
/// a negative integer is below zero, and what is no integer stays as it is.
#[verifier::external_body]
fn open_number(n: serde_json::Number) -> (r: JsonNumber)
    ensures
        r == number_json(n),
        r matches JsonNumber::NegInt(i) ==> i < 0,
        r matches JsonNumber::Float(m) ==> m == n,
{
    match (n.as_u64(), n.as_i64()) {
        (Some(u), _) => JsonNumber::PosInt(u),
        (None, Some(i)) => JsonNumber::NegInt(i),
        (None, None) => JsonNumber::Float(n),
    }
}

/// A number as a `serde_json::Number` holds it: an integer that is not
/// negative is held as such.
pub open spec fn canonical_number(n: JsonNumber) -> JsonNumber {
    match n {
        JsonNumber::PosInt(u) => JsonNumber::PosInt(u),
        JsonNumber::NegInt(i) => JsonNumber::of_int(i as int),
        JsonNumber::Float(m) => number_json(m),
    }
}

/// Makes a `serde_json::Number` with its `From` impls for `u64` and `i64`.
#[verifier::external_body]
fn make_number(n: JsonNumber) -> (r: serde_json::Number)
    ensures
        number_json(r) == canonical_number(n),
{
    match n {
        JsonNumber::PosInt(u) => serde_json::Number::from(u),
        JsonNumber::NegInt(i) => serde_json::Number::from(i),
        JsonNumber::Float(m) => m,
    }
}

/// Calls the `Display` of `serde_json::Error`. What is said depends on the
/// error alone.
#[verifier::external_body]
pub(crate) fn describe(e: &Error) -> (r: String)
    ensures
        r@ == error_text(*e),
{
    e.to_string()
}

/// The items in the opposite order.
fn reversed<T>(items: Vec<T>) -> (r: Vec<T>)
    ensures
        r@ == items@.reverse(),
{
    let ghost all = items@;
    let mut items = items;
    let mut out: Vec<T> = Vec::new();
    while items.len() > 0
        invariant
            items.len() + out.len() == all.len(),
            items@ == all.take(items@.len() as int),
            forall|i: int| 0 <= i < out.len() ==> #[trigger] out@[i] == all[all.len() - 1 - i],
        decreases items.len(),
    {
        let ghost n = items@.len();
        if let Some(item) = items.pop() {
            assert(all[n - 1] == item);
            out.push(item);
        }
        assert(items@ =~= all.take(n - 1));
    }
    assert(out@ =~= all.reverse());
    out
}

/// The value that a `serde_json::Value` holds.
pub fn from_value(v: Value) -> (r: Json)
    ensures
        r@ == value_json(v),
        canonical(r@) == r@,
    decreases value_json(v),
{
    match open_value(v) {
        Parts::Null => Json::Null,
        Parts::Bool(b) => Json::Bool(b),
        Parts::Number(n) => Json::Number(open_number(n)),
        Parts::Text(s) => Json::Str(s),
        Parts::List(items) => {
            proof {
                assert(decreases_to!(value_json(v) => value_json(v)->Array_0));
            }
            Json::Array(from_values(items))
        },
        Parts::Fields(fields) => {
            proof {
                assert(decreases_to!(value_json(v) => value_json(v)->Object_0));
            }
            Json::Object(from_fields(fields))
        },
    }
}

fn from_values(items: Vec<Value>) -> (r: Vec<Json>)
    ensures
        item_views(r@) == list_json(items@),
    decreases list_json(items@),
{
    let ghost all = list_json(items@);
    let mut rest = items;
    let mut out: Vec<Json> = Vec::new();
    while rest.len() > 0
        invariant
            all == list_json(items@),
            rest.len() + out.len() == all.len(),
            rest@ == items@.take(rest@.len() as int),
            forall|i: int| 0 <= i < out.len() ==> (#[trigger] out@[i])@ == all[all.len() - 1 - i],
        decreases rest.len(),
    {
        let ghost n = rest@.len();
        if let Some(item) = rest.pop() {
            assert(all[n - 1] == value_json(item));
            out.push(from_value(item));
        }
        assert(rest@ =~= items@.take(n - 1));
    }
    let r = reversed(out);
    assert(item_views(r@) =~= all);
    r
}

fn from_fields(fields: Vec<(String, Value)>) -> (r: Vec<(String, Json)>)
    ensures
        field_views(r@) == fields_json(fields@),
    decreases fields_json(fields@),
{
    let ghost all = fields_json(fields@);
    let mut rest = fields;
    let mut out: Vec<(String, Json)> = Vec::new();
    while rest.len() > 0
        invariant
            all == fields_json(fields@),
            rest.len() + out.len() == all.len(),
            rest@ == fields@.take(rest@.len() as int),
            forall|i: int|
                0 <= i < out.len() ==> ((#[trigger] out@[i]).0@, out@[i].1@) == all[all.len() - 1
                    - i],
        decreases rest.len(),
    {
        let ghost n = rest@.len();
        if let Some((name, value)) = rest.pop() {
            assert(all[n - 1] == (name@, value_json(value)));
            proof {
                assert(decreases_to!(all => all[n - 1]));
                assert(decreases_to!(all[n - 1] => all[n - 1].1));
            }
            out.push((name, from_value(value)));
        }
        assert(rest@ =~= fields@.take(n - 1));
    }
    let r = reversed(out);
    assert(field_views(r@) =~= all);
    r
}

/// A value as a `serde_json::Value` holds it: the fields of objects in the
/// order of their names.
pub open spec fn canonical(v: JsonView) -> JsonView
    decreases v,
{
    match v {
        JsonView::Number(n) => JsonView::Number(canonical_number(n)),
        JsonView::Array(items) => JsonView::Array(canonical_items(items)),
        JsonView::Object(fields) => JsonView::Object(collected(canonical_fields(fields))),
        other => other,
    }
}

/// The items of an array, each as it is held.
pub open spec fn canonical_items(s: Seq<JsonView>) -> Seq<JsonView>
    decreases s,
{
    Seq::new(s.len(), |i: int| if 0 <= i < s.len() { canonical(s[i]) } else { JsonView::Null })
}

/// The fields of an object, the value of each as it is held.
pub open spec fn canonical_fields(s: Seq<(Seq<char>, JsonView)>) -> Seq<(Seq<char>, JsonView)>
    decreases s,
{
    Seq::new(
        s.len(),
        |i: int|
            if 0 <= i < s.len() {
                (s[i].0, canonical(s[i].1))
            } else {
                (Seq::empty(), JsonView::Null)
            },
    )
}

/// The `serde_json::Value` of a value.
pub fn to_value(j: &Json) -> (r: Value)
    ensures
        value_json(r) == canonical(j@),
    decreases j,
{
    make_value(
        match j {
            Json::Null => Parts::Null,
            Json::Bool(b) => Parts::Bool(*b),
            Json::Number(n) => Parts::Number(make_number(n.clone())),
            Json::Str(s) => Parts::Text(s.clone()),
            Json::Array(items) => Parts::List(to_values(items)),
            Json::Object(fields) => Parts::Fields(to_fields(fields)),
        },
    )
}

fn to_values(items: &Vec<Json>) -> (r: Vec<Value>)
    ensures
        list_json(r@) == canonical_items(item_views(items@)),
    decreases items,
{
    let mut out: Vec<Value> = Vec::new();
    let mut i: usize = 0;
    while i < items.len()
        invariant
            i <= items.len(),
            out.len() == i,
            forall|k: int| 0 <= k < i ==> value_json(#[trigger] out@[k]) == canonical(items@[k]@),
        decreases items.len() - i,
    {
        out.push(to_value(&items[i]));
        i = i + 1;
    }
    assert(list_json(out@) =~= canonical_items(item_views(items@)));
    out
}

fn to_fields(fields: &Vec<(String, Json)>) -> (r: Vec<(String, Value)>)
    ensures
        fields_json(r@) == canonical_fields(field_views(fields@)),
    decreases fields,
{
    let mut out: Vec<(String, Value)> = Vec::new();
    let mut i: usize = 0;
    while i < fields.len()
        invariant
            i <= fields.len(),
            out.len() == i,
            forall|k: int|
                0 <= k < i ==> (#[trigger] out@[k]).0@ == fields@[k].0@ && value_json(out@[k].1)
                    == canonical(fields@[k].1@),
        decreases fields.len() - i,
    {
        let name = fields[i].0.clone();
        let value = to_value(&fields[i].1);
        out.push((name, value));
        i = i + 1;
    }
    assert(fields_json(out@) =~= canonical_fields(field_views(fields@)));
    out
}

/// Whether a result is what reading gave.
pub open spec fn is_read(r: Result<Json, Error>, parsed: Result<JsonView, Error>) -> bool {
    match r {
        Ok(j) => parsed == Ok::<JsonView, Error>(j@),
        Err(e) => parsed == Err::<JsonView, Error>(e),
    }
}

/// Reads a JSON text.
pub fn read_text(text: &str) -> (r: Result<Json, Error>)
    ensures
        is_read(r, parsed_text(text@)),
        r matches Ok(j) ==> canonical(j@) == j@,
{
    match parse_text(text) {
        Ok(v) => Ok(from_value(v)),
        Err(e) => Err(e),
    }
}

/// Reads JSON bytes.
pub fn read_bytes(bytes: &[u8]) -> (r: Result<Json, Error>)
    ensures
        is_read(r, parsed_bytes(bytes@)),
        r matches Ok(j) ==> canonical(j@) == j@,
{
    match parse_bytes(bytes) {
        Ok(v) => Ok(from_value(v)),
        Err(e) => Err(e),
    }
}

/// The bytes of a value.
pub open spec fn json_bytes(v: JsonView) -> Seq<u8> {
    written(canonical(v))
}

/// Writes a value. Where it can be reread, reading its bytes or its text gives
/// it back, as it is held.
pub fn write_json(j: &Json) -> (r: Vec<u8>)
    ensures
        r@ == json_bytes(j@),
        is_text_line(r@),
        rereads(canonical(j@)) ==> reads_back(r@, canonical(j@)),
{
    match write_value(&to_value(j)) {
        Ok(bytes) => bytes,
        Err(_) => Vec::new(),
    }
}

/// The text of a value.
pub open spec fn json_line(v: JsonView) -> Seq<char> {
    decode_utf8(json_bytes(v))
}

/// The text of a value.
pub fn json_string(j: &Json) -> (r: String)
    ensures
        r@ == json_line(j@),
        is_line(json_bytes(j@), r@),
{
    let bytes = write_json(j);
    proof {
        let text = choose|text: Seq<char>| is_line(bytes@, text);
        encode_utf8_valid_utf8(text);
        encode_utf8_decode_utf8(text);
    }
    match utf8_text(bytes) {
        Some(s) => s,
        None => String::new(),
    }
}

/// Whether no two fields have one name.
pub open spec fn names_differ(fields: Seq<(Seq<char>, JsonView)>) -> bool {
    forall|i: int, j: int|
        0 <= i < j < fields.len() ==> (#[trigger] fields[i]).0 != (#[trigger] fields[j]).0
}

proof fn lemma_inserted_lookup(
    fields: Seq<(Seq<char>, JsonView)>,
    name: Seq<char>,
    value: JsonView,
    key: Seq<char>,
)
    ensures
        lookup(inserted(fields, name, value), key) == (if key == name {
            Some(value)
        } else {
            lookup(fields, key)
        }),
    decreases fields.len(),
{
    let after = inserted(fields, name, value);
    if fields.len() == 0 {
        assert(after.drop_first() =~= fields);
        assert(lookup(after.drop_first(), key) is None);
    } else if fields[0].0 == name {
        assert(after.drop_first() =~= fields.drop_first());
    } else if text_less(name, fields[0].0) {
        assert(after.drop_first() =~= fields);
    } else {
        lemma_inserted_lookup(fields.drop_first(), name, value, key);
        assert(after.drop_first() =~= inserted(fields.drop_first(), name, value));
        assert(after[0] == fields[0]);
    }
}

proof fn lemma_lookup_front(fields: Seq<(Seq<char>, JsonView)>, key: Seq<char>)
    requires
        fields.len() > 0,
        names_differ(fields),
    ensures
        lookup(fields, key) == (if key == fields.last().0 {
            Some(fields.last().1)
        } else {
            lookup(fields.drop_last(), key)
        }),
    decreases fields.len(),
{
    let rest = fields.drop_first();
    if fields.len() > 1 {
        assert(fields[0].0 != fields[fields.len() - 1].0);
        assert forall|i: int, j: int| 0 <= i < j < rest.len() implies (#[trigger] rest[i]).0 != (
        #[trigger] rest[j]).0 by {
            assert(fields[i + 1].0 != fields[j + 1].0);
        }
        lemma_lookup_front(rest, key);
        assert(fields.drop_last().drop_first() =~= rest.drop_last());
        assert(fields.drop_last()[0] == fields[0]);
        assert(rest.last() == fields.last());
    } else {
        assert(rest.len() == 0);
        assert(lookup(rest, key) is None);
        assert(lookup(fields.drop_last(), key) is None);
    }
}

proof fn lemma_collected_lookup(fields: Seq<(Seq<char>, JsonView)>, key: Seq<char>)
    requires
        names_differ(fields),
    ensures
        lookup(collected(fields), key) == lookup(fields, key),
    decreases fields.len(),
{
    if fields.len() > 0 {
        let front = fields.drop_last();
        lemma_collected_lookup(front, key);
        lemma_inserted_lookup(collected(front), fields.last().0, fields.last().1, key);
        lemma_lookup_front(fields, key);
    }
}

/// The value that a field has as it is held.
pub open spec fn held_field(value: Option<JsonView>) -> Option<JsonView> {
    match value {
        Some(v) => Some(canonical(v)),
        None => None,
    }
}

proof fn lemma_canonical_lookup(fields: Seq<(Seq<char>, JsonView)>, key: Seq<char>)
    ensures
        lookup(canonical_fields(fields), key) == held_field(lookup(fields, key)),
    decreases fields.len(),
{
    if fields.len() > 0 {
        let held = canonical_fields(fields);
        lemma_canonical_lookup(fields.drop_first(), key);
        assert(held.drop_first() =~= canonical_fields(fields.drop_first()));
        assert(held[0] == (fields[0].0, canonical(fields[0].1)));
    }
}

/// An object is held with each of its fields, whatever the order in which they
/// were given, where no two have one name.
pub proof fn law_fields_are_kept(fields: Seq<(Seq<char>, JsonView)>, key: Seq<char>)
    requires
        names_differ(fields),
    ensures
        canonical(JsonView::Object(fields)).get(key) == held_field(
            JsonView::Object(fields).get(key),
        ),
{
    let held = canonical_fields(fields);
    assert forall|i: int, j: int| 0 <= i < j < held.len() implies (#[trigger] held[i]).0 != (
    #[trigger] held[j]).0 by {
        assert(fields[i].0 != fields[j].0);
    }
    lemma_collected_lookup(held, key);
    lemma_canonical_lookup(fields, key);
}

/// Whether fields stand in the order of their names, each name once.
pub open spec fn in_name_order(fields: Seq<(Seq<char>, JsonView)>) -> bool {
    forall|i: int, j: int|
        0 <= i < j < fields.len() ==> text_less((#[trigger] fields[i]).0, (#[trigger] fields[j]).0)
}

proof fn lemma_inserted_order(
    fields: Seq<(Seq<char>, JsonView)>,
    name: Seq<char>,
    value: JsonView,
    lower: Seq<char>,
)
    requires
        in_name_order(fields),
    ensures
        in_name_order(inserted(fields, name, value)),
        text_less(lower, name) && (forall|i: int|
            0 <= i < fields.len() ==> text_less(lower, (#[trigger] fields[i]).0)) ==> forall|i: int|
            0 <= i < inserted(fields, name, value).len() ==> text_less(
                lower,
                (#[trigger] inserted(fields, name, value)[i]).0,
            ),
    decreases fields.len(),
{
    let after = inserted(fields, name, value);
    if fields.len() > 0 {
        let rest = fields.drop_first();
        assert forall|i: int, j: int| 0 <= i < j < rest.len() implies text_less(
            (#[trigger] rest[i]).0,
            (#[trigger] rest[j]).0,
        ) by {
            assert(text_less(fields[i + 1].0, fields[j + 1].0));
        }
        law_text_order_total(name, fields[0].0);
        if fields[0].0 == name {
            assert forall|i: int, j: int| 0 <= i < j < after.len() implies text_less(
                (#[trigger] after[i]).0,
                (#[trigger] after[j]).0,
            ) by {
                assert(text_less(fields[i].0, fields[j].0));
            }
        } else if text_less(name, fields[0].0) {
            assert forall|i: int, j: int| 0 <= i < j < after.len() implies text_less(
                (#[trigger] after[i]).0,
                (#[trigger] after[j]).0,
            ) by {
                if i > 0 {
                    assert(text_less(fields[i - 1].0, fields[j - 1].0));
                } else if j > 1 {
                    assert(text_less(fields[0].0, fields[j - 1].0));
                    law_text_order_transitive(name, fields[0].0, fields[j - 1].0);
                }
            }
        } else {
            lemma_inserted_order(rest, name, value, fields[0].0);
            lemma_inserted_order(rest, name, value, lower);
            let tail = inserted(rest, name, value);
            assert forall|i: int| 0 <= i < rest.len() implies text_less(
                fields[0].0,
                (#[trigger] rest[i]).0,
            ) by {
                assert(rest[i] == fields[i + 1]);
            }
            assert forall|i: int, j: int| 0 <= i < j < after.len() implies text_less(
                (#[trigger] after[i]).0,
                (#[trigger] after[j]).0,
            ) by {
                assert(after[j] == tail[j - 1]);
                if i > 0 {
                    assert(after[i] == tail[i - 1]);
                }
            }
            if text_less(lower, name) && (forall|i: int|
                0 <= i < fields.len() ==> text_less(lower, (#[trigger] fields[i]).0)) {
                assert forall|i: int| 0 <= i < rest.len() implies text_less(
                    lower,
                    (#[trigger] rest[i]).0,
                ) by {
                    assert(rest[i] == fields[i + 1]);
                }
                assert forall|i: int| 0 <= i < after.len() implies text_less(
                    lower,
                    (#[trigger] after[i]).0,
                ) by {
                    if i > 0 {
                        assert(after[i] == tail[i - 1]);
                    } else {
                        assert(after[0] == fields[0]);
                    }
                }
            }
        }
    }
}

/// An object holds its fields in the order of their names, each name once; of
/// two fields with one name it holds the later value.
pub proof fn law_fields_in_order(
    fields: Seq<(Seq<char>, JsonView)>,
    name: Seq<char>,
    value: JsonView,
    key: Seq<char>,
)
    ensures
        in_name_order(collected(fields)),
        lookup(collected(fields.push((name, value))), name) == Some(value),
        key != name ==> lookup(collected(fields.push((name, value))), key) == lookup(
            collected(fields),
            key,
        ),
    decreases fields.len(),
{
    assert(fields.push((name, value)).drop_last() =~= fields);
    lemma_inserted_lookup(collected(fields), name, value, name);
    lemma_inserted_lookup(collected(fields), name, value, key);
    if fields.len() > 0 {
        let front = fields.drop_last();
        law_fields_in_order(front, name, value, key);
        lemma_inserted_order(
            collected(front),
            fields.last().0,
            fields.last().1,
            Seq::empty(),
        );
    }
}

/// What a value is held as: itself where it is no number, array or object; an
/// array with each item in its place; an integer as that integer.
pub proof fn law_held_values(v: JsonView, items: Seq<JsonView>, i: int, n: u64, k: i64)
    ensures
        v is Null || v is Bool || v is Str ==> canonical(v) == v,
        canonical(JsonView::Array(items)) matches JsonView::Array(held) && held.len()
            == items.len() && (0 <= i < items.len() ==> held[i] == canonical(items[i])),
        canonical(JsonView::Number(JsonNumber::PosInt(n))) == JsonView::Number(
            JsonNumber::PosInt(n),
        ),
        k < 0 ==> canonical(JsonView::Number(JsonNumber::NegInt(k))) == JsonView::Number(
            JsonNumber::NegInt(k),
        ),
        k >= 0 ==> canonical(JsonView::Number(JsonNumber::NegInt(k))) == JsonView::Number(
            JsonNumber::PosInt(k as u64),
        ),
{
}

/// What was read is the value, or else the error, that reading gave.
pub proof fn law_read_result(r: Result<Json, Error>, v: JsonView, e: Error)
    ensures
        is_read(r, Ok::<JsonView, Error>(v)) ==> (r matches Ok(j) && j@ == v),
        is_read(r, Err::<JsonView, Error>(e)) ==> r == Err::<Json, Error>(e),
{
}

} // verus!
