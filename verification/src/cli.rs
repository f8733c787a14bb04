//! The command-line surface the binary presents.
//!
//! Argument parsing reads the process environment and lives outside the
//! library; this module holds its error value and the usage text.

use vstd::prelude::*;

verus! {

/// A command-line parsing failure with its message.
#[derive(Debug)]
pub struct CliError {
    message: String,
}

impl CliError {
    /// The message's text, for contracts.
    pub closed spec fn message_spec(&self) -> Seq<char> {
        self.message@
    }

    pub fn new(message: String) -> (r: CliError)
        ensures
            r.message_spec() == message@,
    {
        CliError { message }
    }

    /// The message shown to the user.
    pub fn message(&self) -> (r: &str)
        ensures
            r@ == self.message_spec(),
    {
        self.message.as_str()
    }
}

/// The usage text printed for `--help` and after a parse failure.
pub fn usage() -> (r: &'static str)
    ensures
        r@
            == "cargo-doc-viewer\n\nUSAGE:\n  cargo-doc-viewer [serve] [-d|--doc-dir <path>] [--addr <ip:port>] [--port <port>]\n  cargo-doc-viewer enhance [-d|--doc-dir <path>]\n  cargo-doc-viewer revert [-d|--doc-dir <path>]\n\nDESCRIPTION:\n  Serve rustdoc HTML with runtime enhancements (default) or statically inject/remove them in place.\n\nEXAMPLES:\n  cargo doc && cargo-doc-viewer\n  cargo-doc-viewer serve --port 4200\n  cargo-doc-viewer enhance --doc-dir target/doc\n  cargo-doc-viewer revert --doc-dir target/doc\n"@,
{
    "cargo-doc-viewer\n\nUSAGE:\n  cargo-doc-viewer [serve] [-d|--doc-dir <path>] [--addr <ip:port>] [--port <port>]\n  cargo-doc-viewer enhance [-d|--doc-dir <path>]\n  cargo-doc-viewer revert [-d|--doc-dir <path>]\n\nDESCRIPTION:\n  Serve rustdoc HTML with runtime enhancements (default) or statically inject/remove them in place.\n\nEXAMPLES:\n  cargo doc && cargo-doc-viewer\n  cargo-doc-viewer serve --port 4200\n  cargo-doc-viewer enhance --doc-dir target/doc\n  cargo-doc-viewer revert --doc-dir target/doc\n"
}

} // verus!
