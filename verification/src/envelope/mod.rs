//! The binary envelopes of requests and responses.
//!
//! An envelope is a FlatBuffers buffer. [`read`] and [`write`] know how
//! tables, vectors and strings are laid out; [`request`], [`html`] and
//! [`spans`] know which table holds what. Every decoder comes with the
//! spec function that says what bytes mean, and every encoder promises
//! that its bytes mean what was encoded.

pub mod bytes;
pub mod html;
pub mod read;
pub mod request;
pub mod request_write;
pub mod shift;
pub mod spans;
pub mod text;
pub mod write;
