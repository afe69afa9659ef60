//! What is taken in is given back: the bytes that a file is cut into on
//! check-in are the bytes that check-out puts together from its pointer.
//!
//! The store stands between the two. It is taken to keep what it is handed:
//! asked for the reference that was published for a manifest it answers
//! with the tree of that manifest, and asked for the parts that the tree
//! lists it answers with the parts, in their order.

use vstd::prelude::*;
use crate::clean::{lemma_pieces_concat, names_from, SplitPolicy};
use crate::error::GfsError;
use crate::manifest::{tree_names, unbroken, TreeEntry};
use crate::part_name::{first_name, name_at};
use crate::pointer::{lemma_parse_rendered, rendered};
use crate::rows::concat;
use crate::smudge::reconstructed;

verus! {

/// The names of the parts of one file, from the first on, are names with
/// none missing.
pub proof fn lemma_names_unbroken(width: nat, count: nat)
    requires
        width > 0,
    ensures
        unbroken(names_from(width, count)),
{
    let names = names_from(width, count);
    if count > 0 {
        assert(names[0] == first_name(width));
        assert(names[0].len() == width);
    }
}

/// Where the text is the one published for a manifest, the tree behind its
/// reference holds the names of the parts with none missing, and the store
/// answers with the parts in their order, check-out comes to the bytes that
/// the parts make up in a row.
pub proof fn lemma_smudge_gives_back(
    data: Seq<u8>,
    pieces: Seq<Seq<u8>>,
    manifest_id: Seq<char>,
    tree: Seq<TreeEntry>,
)
    requires
        concat(pieces) == data,
        unbroken(tree_names(tree)),
        tree.len() == pieces.len(),
    ensures
        reconstructed(rendered(manifest_id), Some(tree), pieces) == Ok::<Seq<u8>, GfsError>(data),
{
    lemma_parse_rendered(manifest_id);
}

/// A file that was taken in is given back as it was: whatever its bytes,
/// the policy under which it was split, the width of the names of its
/// parts, and the id that the store gave to its manifest.
pub proof fn lemma_file_is_given_back(
    data: Seq<u8>,
    policy: SplitPolicy,
    width: nat,
    manifest_id: Seq<char>,
    tree: Seq<TreeEntry>,
)
    requires
        policy.usable(),
        width > 0,
        tree_names(tree) == names_from(width, policy.pieces(data).len()),
    ensures
        reconstructed(rendered(manifest_id), Some(tree), policy.pieces(data)) == Ok::<
            Seq<u8>,
            GfsError,
        >(data),
{
    lemma_pieces_concat(data, policy);
    lemma_names_unbroken(width, policy.pieces(data).len());
    assert(tree_names(tree).len() == tree.len());
    lemma_smudge_gives_back(data, policy.pieces(data), manifest_id, tree);
}

} // verus!
