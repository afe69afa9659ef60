//! The id under which the object store keeps a blob.

use vstd::prelude::*;
use crate::content_sha::{sha1_digest, sha1_of};
use crate::error::GfsError;
use crate::text::{
    decimal_digits, decimal_of, decimal_value, hex_lower, hex_text, is_decimal, join, joined,
    lines, lines_of, parse_number, without_plus,
};

verus! {

/// The id of an object in the object store.
#[derive(PartialEq, Eq, PartialOrd, Ord, Hash, Debug, Clone)]
pub struct GitObjectId {
    sha: String,
}

/// What the object store puts before the contents of a blob when it names
/// it: the word `blob`, a space, the length in decimal digits and a zero
/// byte.
pub open spec fn blob_header(len: nat) -> Seq<u8> {
    seq![0x62u8, 0x6cu8, 0x6fu8, 0x62u8, 0x20u8] + decimal_digits(len) + seq![0u8]
}

/// The id of the blob with the contents `data` in an object store that
/// names its objects by SHA-1: the SHA-1 digest of the header and the
/// contents, in hexadecimal digits. A store that names its objects by
/// another digest gives the blob another id; where the two have to agree the
/// caller holds the id that the store answered against this one.
pub open spec fn blob_id(data: Seq<u8>) -> Seq<char> {
    hex_text(sha1_digest(blob_header(data.len()) + data))
}

/// A text without its line ends: its lines, one after the other.
pub open spec fn without_line_ends(text: Seq<char>) -> Seq<char> {
    joined(lines_of(text), Seq::empty())
}

impl View for GitObjectId {
    type V = Seq<char>;

    closed spec fn view(&self) -> Seq<char> {
        self.sha@
    }
}

impl GitObjectId {
    /// The id that the object store gives to a blob with the contents
    /// `data`.
    pub fn from_contents(data: &[u8]) -> (id: GitObjectId)
        ensures
            id@ == blob_id(data@),
            id@.len() == 40,
    {
        let mut named: Vec<u8> = Vec::new();
        named.push(0x62);
        named.push(0x6c);
        named.push(0x6f);
        named.push(0x62);
        named.push(0x20);
        let mut digits = decimal_of(data.len());
        named.append(&mut digits);
        named.push(0);
        assert(named@ =~= blob_header(data@.len()));
        let mut i: usize = 0;
        while i < data.len()
            invariant
                i <= data.len(),
                named@ == blob_header(data@.len()) + data@.take(i as int),
            decreases data.len() - i,
        {
            named.push(data[i]);
            assert(data@.take(i + 1) == data@.take(i as int).push(data@[i as int]));
            i += 1;
        }
        assert(data@.take(data.len() as int) == data@);
        let digest = sha1_of(named.as_slice());
        proof {
            crate::text::lemma_hex_text_len(digest@);
        }
        GitObjectId { sha: hex_lower(digest.as_slice()) }
    }

    /// The id that the object store printed: what it printed without the
    /// line ends.
    pub fn from_output(output: &str) -> (id: GitObjectId)
        ensures
            id@ == without_line_ends(output@),
    {
        let found = lines(output);
        proof {
            reveal_strlit("");
            assert(""@ =~= Seq::<char>::empty());
        }
        GitObjectId { sha: join(&found, "") }
    }

    /// The size that the object store printed for an object: the number
    /// that what it printed holds once the line ends are taken away, in
    /// decimal digits, before which a plus sign may stand. What holds no
    /// number below 2^32 is a failure of the plumbing, which carries what
    /// was printed.
    pub fn size(output: &str) -> (size: Result<u32, GfsError>)
        ensures
            size is Ok <==> is_decimal(without_plus(without_line_ends(output@)))
                && decimal_value(without_plus(without_line_ends(output@))) <= u32::MAX,
            size matches Ok(n) ==> n == decimal_value(without_plus(without_line_ends(output@))),
            size matches Err(e) ==> (e matches GfsError::PlumbingError(d) && d@ == output@),
    {
        let found = lines(output);
        proof {
            reveal_strlit("");
            assert(""@ =~= Seq::<char>::empty());
        }
        let digits = join(&found, "");
        match parse_number(digits.as_str()) {
            Some(n) => Ok(n),
            None => Err(GfsError::PlumbingError(String::from_str(output))),
        }
    }

    /// The id as text.
    pub fn as_str(&self) -> (text: &str)
        ensures
            text@ == self@,
    {
        self.sha.as_str()
    }
}

} // verus!
