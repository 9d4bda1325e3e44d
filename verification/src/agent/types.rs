//! Data exchanged with an agent.
//!
//! Each id is a string of its own type, so that ids of different kinds cannot
//! be mixed up.
use crate::json::Json;
use vstd::prelude::*;
use vstd::std_specs::convert::FromSpecImpl;

verus! {

/// Identifier of a conversation.
#[derive(Debug, Clone, PartialEq, Eq, Hash)]
pub struct ThreadId(pub String);

/// Identifier of a turn within a thread.
#[derive(Debug, Clone, PartialEq, Eq, Hash)]
pub struct TurnId(pub String);

/// Client-side correlation id of a submission.
#[derive(Debug, Clone, PartialEq, Eq, Hash)]
pub struct SubmissionId(pub String);

impl ThreadId {
    /// The id as a string.
    pub fn as_str(&self) -> (r: &str)
        ensures
            r@ == self.0@,
    {
        self.0.as_str()
    }
}

impl TurnId {
    /// The id as a string.
    pub fn as_str(&self) -> (r: &str)
        ensures
            r@ == self.0@,
    {
        self.0.as_str()
    }
}

impl SubmissionId {
    /// The id as a string.
    pub fn as_str(&self) -> (r: &str)
        ensures
            r@ == self.0@,
    {
        self.0.as_str()
    }
}

impl From<String> for ThreadId {
    fn from(value: String) -> (r: Self) {
        ThreadId(value)
    }
}

impl FromSpecImpl<String> for ThreadId {
    open spec fn obeys_from_spec() -> bool {
        true
    }

    open spec fn from_spec(value: String) -> Self {
        ThreadId(value)
    }
}

impl From<String> for TurnId {
    fn from(value: String) -> (r: Self) {
        TurnId(value)
    }
}

impl FromSpecImpl<String> for TurnId {
    open spec fn obeys_from_spec() -> bool {
        true
    }

    open spec fn from_spec(value: String) -> Self {
        TurnId(value)
    }
}

impl From<String> for SubmissionId {
    fn from(value: String) -> (r: Self) {
        SubmissionId(value)
    }
}

impl FromSpecImpl<String> for SubmissionId {
    open spec fn obeys_from_spec() -> bool {
        true
    }

    open spec fn from_spec(value: String) -> Self {
        SubmissionId(value)
    }
}

impl From<&str> for ThreadId {
    fn from(value: &str) -> (r: Self)
        ensures
            r.0@ == value@,
    {
        ThreadId(value.to_owned())
    }
}

impl FromSpecImpl<&str> for ThreadId {
    open spec fn obeys_from_spec() -> bool {
        false
    }

    open spec fn from_spec(value: &str) -> Self {
        arbitrary()
    }
}

impl From<&str> for TurnId {
    fn from(value: &str) -> (r: Self)
        ensures
            r.0@ == value@,
    {
        TurnId(value.to_owned())
    }
}

impl FromSpecImpl<&str> for TurnId {
    open spec fn obeys_from_spec() -> bool {
        false
    }

    open spec fn from_spec(value: &str) -> Self {
        arbitrary()
    }
}

impl From<&str> for SubmissionId {
    fn from(value: &str) -> (r: Self)
        ensures
            r.0@ == value@,
    {
        SubmissionId(value.to_owned())
    }
}

impl FromSpecImpl<&str> for SubmissionId {
    open spec fn obeys_from_spec() -> bool {
        false
    }

    open spec fn from_spec(value: &str) -> Self {
        arbitrary()
    }
}

/// What the client says of itself.
#[derive(Debug, Clone, PartialEq, Eq)]
pub struct ClientInfo {
    pub name: String,
    pub version: String,
}

/// What the server says of itself.
#[derive(Debug, Clone, PartialEq, Eq)]
pub struct ServerInfo {
    pub name: String,
    pub version: String,
}

/// The client's side of the handshake.
#[derive(Debug, Clone, PartialEq, Eq)]
pub struct InitializeParams {
    pub client_info: ClientInfo,
    /// Protocol version the client wants to speak, if any.
    pub protocol_version: Option<String>,
    /// Methods the client handles as inbound requests.
    pub supported_methods: Vec<String>,
}

/// The server's side of the handshake.
#[derive(Debug, Clone, PartialEq, Eq)]
pub struct InitializeResponse {
    pub server_info: ServerInfo,
    /// Protocol version the server agreed to speak, if any.
    pub protocol_version: Option<String>,
    /// Request methods the server understands.
    pub supported_methods: Vec<String>,
    /// Notification methods the server may emit.
    pub supported_notifications: Vec<String>,
}

/// A unit of work for the agent.
#[derive(Debug, Clone, PartialEq, Eq)]
pub struct Submission {
    /// Client-assigned correlation id.
    pub id: SubmissionId,
    /// The thread the submission belongs to.
    pub thread_id: ThreadId,
    /// The work itself, opaque here.
    pub payload: Json,
}

/// Stable identifier of a backend.
#[derive(Debug, Clone, Copy, PartialEq, Eq, Hash)]
pub struct BackendId(pub &'static str);

impl BackendId {
    /// The id as a string.
    pub fn as_str(&self) -> (r: &'static str)
        ensures
            r@ == self.0@,
    {
        self.0
    }
}

/// How to start an agent process.
#[derive(Debug, Clone)]
pub struct ProcessBackendConfig {
    /// Path of the executable.
    pub program: String,
    /// What the process sees as its own name, where it is not the path.
    pub argv0: Option<String>,
    /// Arguments, in order.
    pub args: Vec<String>,
    /// Environment variables on top of the inherited ones.
    pub env: Vec<(String, String)>,
}

} // verus!
