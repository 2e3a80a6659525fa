//! The failure taxonomy of a parse: transport failures propagate unchanged,
//! a body that ends before its delimiters is truncated, and malformed
//! structure is reported against the part that carries it.

use vstd::prelude::*;

verus! {

/// Why reading a multipart body failed.
#[derive(Debug)]
pub enum MpError {
    /// The underlying source failed; the message is the transport's own.
    Transport(String),
    /// The source was exhausted before a boundary or header terminator was
    /// found: the body is malformed or was closed prematurely.
    Truncated,
    /// The boundary bytes occurred but were followed by neither CRLF nor
    /// the two terminal hyphens.
    MalformedBoundary,
    /// A part's header block could not be parsed; the raw block is carried
    /// for diagnostics.
    MalformedHeaders(Vec<u8>),
    /// A text field's payload was not valid UTF-8; the field's name is
    /// carried.
    InvalidText(String),
}

impl MpError {
    /// A short fixed description of the error kind.
    pub fn describe(&self) -> (r: &'static str) {
        match self {
            MpError::Transport(_) => "transport failure",
            MpError::Truncated => "truncated multipart body",
            MpError::MalformedBoundary => "malformed boundary delimiter",
            MpError::MalformedHeaders(_) => "malformed part headers",
            MpError::InvalidText(_) => "text field is not valid UTF-8",
        }
    }
}

} // verus!
