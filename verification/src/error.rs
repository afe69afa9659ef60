//! The ways in which an operation of this library can fail.

use vstd::prelude::*;

verus! {

/// Why an operation failed. A failure of the surrounding machinery carries
/// the diagnostic text that came with it.
#[derive(Debug, Clone, PartialEq, Eq)]
pub enum GfsError {
    /// The chunk size bounds are out of order, or a size is not usable.
    ConfigurationError,
    /// A stream could not be read or written.
    IoError(String),
    /// An operation of the object store or the reference store failed.
    PlumbingError(String),
    /// The reference named by a pointer does not resolve.
    DanglingPointer,
    /// A manifest lacks one of the parts between its first and its last.
    TruncatedManifest,
    /// Something failed while the branch tip was moved away.
    HistoryCorruptionRisk(String),
    /// The pointer record carries a version tag that is not known.
    UnsupportedPointerVersion,
    /// The text is no pointer record at all.
    MalformedPointer,
}

impl GfsError {
    /// The diagnostic text carried by the error, empty where it has none.
    pub open spec fn diagnostic(self) -> Seq<char> {
        match self {
            GfsError::IoError(text) => text@,
            GfsError::PlumbingError(text) => text@,
            GfsError::HistoryCorruptionRisk(text) => text@,
            _ => Seq::empty(),
        }
    }

    /// A short name of the kind of failure.
    pub open spec fn label(self) -> Seq<char> {
        match self {
            GfsError::ConfigurationError => "invalid chunk size bounds"@,
            GfsError::IoError(_) => "stream failure"@,
            GfsError::PlumbingError(_) => "plumbing failure"@,
            GfsError::DanglingPointer => "dangling pointer"@,
            GfsError::TruncatedManifest => "truncated manifest"@,
            GfsError::HistoryCorruptionRisk(_) => "failure while the branch tip was moved"@,
            GfsError::UnsupportedPointerVersion => "unsupported pointer version"@,
            GfsError::MalformedPointer => "malformed pointer"@,
        }
    }

    /// The cause in words: the label, and after a colon the diagnostic text
    /// where there is one.
    pub open spec fn described(self) -> Seq<char> {
        if self.diagnostic().len() == 0 {
            self.label()
        } else {
            self.label() + ": "@ + self.diagnostic()
        }
    }

    /// The human-readable cause of the error.
    pub fn message(&self) -> (text: String)
        ensures
            text@ == self.described(),
    {
        let (label, detail): (&str, &str) = match self {
            GfsError::ConfigurationError => ("invalid chunk size bounds", ""),
            GfsError::IoError(text) => ("stream failure", text.as_str()),
            GfsError::PlumbingError(text) => ("plumbing failure", text.as_str()),
            GfsError::DanglingPointer => ("dangling pointer", ""),
            GfsError::TruncatedManifest => ("truncated manifest", ""),
            GfsError::HistoryCorruptionRisk(text) => (
                "failure while the branch tip was moved",
                text.as_str(),
            ),
            GfsError::UnsupportedPointerVersion => ("unsupported pointer version", ""),
            GfsError::MalformedPointer => ("malformed pointer", ""),
        };
        proof {
            reveal_strlit("");
        }
        let mut text = String::from_str(label);
        if detail.unicode_len() > 0 {
            text.append(": ");
            text.append(detail);
        }
        text
    }
}

} // verus!
