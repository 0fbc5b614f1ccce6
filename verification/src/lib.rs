//! An in-memory key-value store that speaks a length-prefixed textual wire
//! protocol: a framing codec, a command model, a TTL-aware store, and a
//! dispatcher that ties them together. All I/O stays outside this crate; the
//! library works on plain byte buffers and an explicit millisecond clock
//! supplied by the caller.
pub mod bytes;
pub mod codec;
pub mod command;
pub mod config;
pub mod dispatch;
pub mod session;
pub mod store;
