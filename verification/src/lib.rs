//! Codec for the Thrift Binary wire protocol and its transport envelopes.
//!
//! The crate models byte buffers as `Vec<u8>` and states every decoder and
//! encoder against spec-level parsing functions over `Seq<u8>`.  The
//! synchronous reader and the incremental (resumable) reader share those
//! functions, so both paths are proved against one description of the wire.

pub mod error;
pub mod thrift;
pub mod wire;
pub mod skip;
pub mod binary;
pub mod codec;
pub mod protocol;

pub use error::CodecError;
pub use error::CodecErrorKind;
