//! A length-prefixed, checksummed binary protocol for authenticated file
//! storage, together with the server-side engine that reassembles files
//! uploaded as discrete chunks.
//!
//! The crate covers the wire codec (message framing with integrity
//! verification), the chunk envelope codec, the authentication gate, the
//! per-filename chunk reassembly engine, filename validation, and the
//! listing record format.  Transport and filesystem access live outside.

pub mod chunk;
pub mod config;
pub mod engine;
pub mod listing;
pub mod names;
pub mod protocol;
pub mod session;
pub mod wire;
