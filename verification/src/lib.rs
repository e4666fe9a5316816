//! Syntax highlighting of many files per request.
//!
//! A request is one binary envelope with a batch of files. Each file is
//! decoded, resolved to a language, handed to a highlighter under a shared
//! deadline, and answered by one document of the response, which carries
//! either the highlighted payload or an error code.
//!
//! - [`envelope`] reads and writes the envelopes.
//! - [`languages`] finds the language of a file.
//! - [`highlight`] runs the highlighter and the renderer of markup.
//! - [`processors`] turns a highlighted file into its outcome, and the
//!   outcomes of a request into the response.
//! - [`server`] decides about a request and about each of its files.
//! - [`client`] builds requests and reads responses.
//! - [`errors`] names what can go wrong.

pub mod client;
pub mod envelope;
pub mod errors;
pub mod highlight;
pub mod languages;
pub mod processors;
pub mod server;
pub mod text;
