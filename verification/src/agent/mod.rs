//! Backend-neutral agent plumbing: the data that client and agent exchange,
//! capability negotiation, and the routing of messages.
pub mod capabilities;
pub mod client;
pub mod envelope;
pub mod types;
