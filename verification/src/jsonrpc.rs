//! JSON-RPC message envelopes.
use crate::json::{has_field, holds, lacks_field, law_get, reads, Json, JsonView};
use vstd::prelude::*;

verus! {

/// Request identifier.
#[derive(Debug, Clone, PartialEq, Eq, Hash)]
pub enum RequestId {
    /// Numeric identifier.
    Number(i64),
    /// String identifier.
    String(String),
}

/// Error object of a response.
#[derive(Debug, Clone, PartialEq, Eq)]
pub struct JsonRpcError {
    /// Numeric error code.
    pub code: i32,
    /// Human-readable description.
    pub message: String,
    /// Further detail, if any.
    pub data: Option<Json>,
}

/// A message. Its shape is left open.
#[derive(Debug, Clone, PartialEq, Eq)]
pub struct JsonRpcMessage(pub Json);

/// The id of a message where it is there and not null.
pub open spec fn id_of(value: JsonView) -> Option<JsonView> {
    match value.get("id"@) {
        Some(v) => if v is Null {
            None
        } else {
            Some(v)
        },
        None => None,
    }
}

impl JsonRpcMessage {
    /// A message of the given value.
    pub fn new(value: Json) -> (r: JsonRpcMessage)
        ensures
            r.0 == value,
    {
        JsonRpcMessage(value)
    }

    /// The value.
    pub fn as_value(&self) -> (r: &Json)
        ensures
            *r == self.0,
    {
        &self.0
    }

    /// The value.
    pub fn into_value(self) -> (r: Json)
        ensures
            r == self.0,
    {
        self.0
    }

    /// The method of a request or notification.
    pub fn method(&self) -> (r: Option<&str>)
        ensures
            reads(r, self.0@.get_str("method"@)),
    {
        self.0.get_str("method")
    }

    /// The id, where it is there and not null.
    pub fn id(&self) -> (r: Option<&Json>)
        ensures
            holds(r, id_of(self.0@)),
    {
        match self.0.get("id") {
            Some(v) => if v.is_null() {
                None
            } else {
                Some(v)
            },
            None => None,
        }
    }

    /// The parameters.
    pub fn params(&self) -> (r: Option<&Json>)
        ensures
            holds(r, self.0@.get("params"@)),
    {
        self.0.get("params")
    }

    /// Whether this is a notification: it has a method and no id.
    pub fn is_notification(&self) -> (r: bool)
        ensures
            r == (self.0@.get_str("method"@) is Some && id_of(self.0@) is None),
    {
        self.method().is_some() && self.id().is_none()
    }
}

/// A message has an id exactly where it has a field `id` that is not null, and
/// is a notification where it has none but a field `method` that is a string.
pub proof fn law_message_id(v: JsonView, id: JsonView, method: Seq<char>)
    ensures
        has_field(v, "id"@, id) && !(id is Null) ==> id_of(v) == Some(id),
        has_field(v, "id"@, JsonView::Null) ==> id_of(v) is None,
        lacks_field(v, "id"@) ==> id_of(v) is None,
        has_field(v, "method"@, JsonView::Str(method)) ==> v.get_str("method"@) == Some(method),
        lacks_field(v, "method"@) ==> v.get_str("method"@) is None,
        has_field(v, "params"@, id) ==> v.get("params"@) == Some(id),
{
    law_get(v, "id"@, id);
    law_get(v, "id"@, JsonView::Null);
    law_get(v, "method"@, JsonView::Str(method));
    law_get(v, "params"@, id);
}

} // verus!
