//! Append-only log of agent turn events, used for crash recovery.
//!
//! A log is a run of records:
//!
//! ```text
//! record := u32_le_len || u8_kind || payload || u32_le_crc32c
//! ```
//!
//! `len` is the length of `kind || payload`; the checksum is CRC-32C over the
//! same bytes.
pub mod config;
pub mod crc;
pub mod gc;
pub mod laws;
pub mod record;
