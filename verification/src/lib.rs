//! Serving and in-place enhancement of statically generated API documentation.
//!
//! The crate's verified core is pure logic: a reversible HTML injection
//! transform proved idempotent and byte-exact to undo, a percent-decoding
//! path resolver immune to traversal escapes, a catalog scanner deriving an
//! ordered package list from directory evidence, an overview renderer, the
//! request-dispatch and error-mapping rules of the server, and the
//! normalization rules of the chat-panel configuration.  File-system and
//! network I/O live outside the library and hand plain values in.

pub mod cli;
pub mod config;
pub mod enhance;
pub mod injector;
pub mod overview;
pub mod paths;
pub mod server;
pub mod text;
