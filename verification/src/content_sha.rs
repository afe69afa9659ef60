//! The content-derived name of a part: the SHA-1 digest of its bytes.

use vstd::prelude::*;
use sha1::Digest;
use crate::text::{hex_lower, hex_text};

verus! {

/// The SHA-1 digest of `data`.
pub uninterp spec fn sha1_digest(data: Seq<u8>) -> Seq<u8>;

/// Calls `sha1::Sha1::digest`, which gives the SHA-1 digest of the bytes it
/// is handed: twenty bytes. The contract names the digest and states its
/// length, nothing else.
#[verifier::external_body]
pub(crate) fn sha1_of(data: &[u8]) -> (digest: Vec<u8>)
    ensures
        digest@ == sha1_digest(data@),
        digest@.len() == 20,
{
    sha1::Sha1::digest(data).to_vec()
}

/// The name under which the contents of a part are kept: their digest in
/// hexadecimal digits. Equal contents have equal names.
#[derive(PartialEq, Eq, PartialOrd, Ord, Hash, Debug, Clone)]
pub struct ContentSha {
    pub inner: String,
}

impl ContentSha {
    /// The name of the contents `data`.
    pub open spec fn of(data: Seq<u8>) -> Seq<char> {
        hex_text(sha1_digest(data))
    }

    /// Names the contents `data`.
    pub fn from_contents(data: &[u8]) -> (sha: ContentSha)
        ensures
            sha.inner@ == ContentSha::of(data@),
            sha.inner@.len() == 40,
    {
        let digest = sha1_of(data);
        proof {
            crate::text::lemma_hex_text_len(digest@);
        }
        ContentSha { inner: hex_lower(digest.as_slice()) }
    }

    /// The name as text.
    pub fn as_str(&self) -> (text: &str)
        ensures
            text@ == self.inner@,
    {
        self.inner.as_str()
    }
}

} // verus!
