//! Telling whether a command of the host succeeded.

use vstd::prelude::*;
use vstd::utf8::{decode_utf8, valid_utf8};
use crate::error::GfsError;

verus! {

/// What a command of the host left behind when it ended: whether it
/// succeeded, and what it wrote to its two streams.
#[derive(Debug, Clone, PartialEq, Eq)]
pub struct CommandOutput {
    pub success: bool,
    pub stdout: Vec<u8>,
    pub stderr: Vec<u8>,
}

/// The diagnostic text for a failed command whose own diagnostic output is
/// no text.
pub open spec fn unreadable_diagnostic() -> Seq<char> {
    "the diagnostic output is no text"@
}

/// Calls `gix::bstr::ByteSlice::to_str`, which gives the bytes as text where
/// they are valid UTF-8, and fails where they are not.
#[verifier::external_body]
fn text_of(bytes: &[u8]) -> (text: Option<String>)
    ensures
        text is Some <==> valid_utf8(bytes@),
        text matches Some(t) ==> t@ == decode_utf8(bytes@),
{
    match gix::bstr::ByteSlice::to_str(bytes) {
        Ok(text) => Some(text.to_owned()),
        Err(_) => None,
    }
}

pub trait SealedOutput: Sized {
    /// Whether the command succeeded.
    spec fn succeeded(self) -> bool;

    /// What the command wrote to its diagnostic stream.
    spec fn diagnostic_output(self) -> Seq<u8>;

    /// Ensure the command was successful, and ensure its diagnostic output
    /// is in the error.
    fn exit_ok_or_stderror(self) -> (checked: Result<Self, GfsError>)
        ensures
            checked is Ok <==> self.succeeded(),
            checked matches Ok(output) ==> output == self,
            checked matches Err(e) ==> (e matches GfsError::PlumbingError(d) && d@ == (
            if valid_utf8(self.diagnostic_output()) {
                decode_utf8(self.diagnostic_output())
            } else {
                unreadable_diagnostic()
            })),
    ;
}

impl SealedOutput for CommandOutput {
    open spec fn succeeded(self) -> bool {
        self.success
    }

    open spec fn diagnostic_output(self) -> Seq<u8> {
        self.stderr@
    }

    fn exit_ok_or_stderror(self) -> (checked: Result<Self, GfsError>) {
        if !self.success {
            let diagnostic = match text_of(self.stderr.as_slice()) {
                Some(text) => text,
                None => String::from_str("the diagnostic output is no text"),
            };
            return Err(GfsError::PlumbingError(diagnostic));
        }
        Ok(self)
    }
}

} // verus!
