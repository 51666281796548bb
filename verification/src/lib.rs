//! A simple persistent key-value database.
//!
//! The heart of the crate is a log-structured storage engine: every `set` and
//! `remove` appends one self-delimiting textual record to a log, an in-memory
//! index maps each key to the offset and length of its latest record, and a
//! compaction pass rewrites the log to one record per live key once enough
//! stale bytes accumulate.  The engine here works on the log as a sequence of
//! characters; the thin unverified shell around the crate keeps that sequence
//! on disk and on the wire.

pub mod chars;
pub mod client;
pub mod cmd;
pub mod codec;
pub mod engines;
pub mod error;
pub mod index;
pub mod kv;
pub mod server;
pub mod transport;

pub use engines::EngineKind;
pub use engines::KvsEngine;
pub use error::KvsError;
pub use kv::KvStore;
pub use server::KvsServer;
pub use transport::Request;
pub use transport::ResponseGet;
pub use transport::ResponseRemove;
pub use transport::ResponseSet;
