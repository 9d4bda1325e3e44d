//! Core logic of the desktop agent client: markdown parsing for streamed
//! replies, the turn log, message framing, agent backends and the roles that
//! one binary plays.
pub mod agent;
pub mod conformance;
pub mod content_search;
pub mod desktop;
pub mod drift_log;
pub mod framing;
pub mod framing_laws;
pub mod header_laws;
pub mod json;
pub mod json_text;
pub mod jsonrpc;
pub mod keyed;
pub mod launcher;
pub mod markdown;
pub mod paths;
pub mod text;
pub mod wal;
