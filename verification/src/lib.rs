//! Resolution of sequence-input specifications.
//!
//! An input — one file's bytes, the bytes piped on standard input, or a list
//! file naming further paths — is classified by a four-byte lookahead,
//! transparently unwrapped from at most one layer of gzip compression, and
//! turned into either a single record-producing source or an ordered
//! aggregate of sources that is iterated as one stream.

pub mod gzip;
pub mod resolve;
pub mod source;
pub mod text;
