//! Large-file storage on top of a version-control repository: payloads are
//! split into parts, stored outside the visible history, and replaced in the
//! tracked file by a small pointer record.
//!
//! On check-in a file is split into parts ([`splitter`], [`chunker`]), the
//! parts are named and listed in a manifest ([`part_name`], [`manifest`]),
//! and the file is replaced by a pointer to the manifest ([`pointer`],
//! [`json`], [`written`], [`clean`]). On check-out the pointer is resolved and the parts are put
//! together again ([`smudge`]). After a commit the manifests that the commit
//! touched are folded into reachable history ([`post_commit`], [`track`]),
//! and before a push the commits are laid out in packs that stay under the
//! limit of the remote host ([`pre_push`]).
//!
//! The library decides and computes; it does not touch the repository. The
//! work on the object store and the reference store is asked of the caller,
//! who hands back what the store answered.

use vstd::prelude::*;

pub mod chunker;
pub mod clean;
pub mod config;
pub mod content_sha;
pub mod error;
pub mod git_object_id;
pub mod git_object_sized;
pub mod json;
pub mod manifest;
pub mod part_name;
pub mod pointer;
pub mod post_commit;
pub mod pre_push;
pub mod round_trip;
pub mod rows;
pub mod sealed_stdout;
pub mod smudge;
pub mod splitter;
pub mod text;
pub mod track;
pub mod written;

pub use chunker::Chunker;
pub use clean::{
    clean, clean_fixed, clean_with, git_ensure_blobs, publish, split, split_into_chunks, Blob,
    CleanOptions, Cleaned, Publication, SplitPolicy,
};
pub use config::Config;
pub use content_sha::ContentSha;
pub use error::GfsError;
pub use git_object_id::GitObjectId;
pub use git_object_sized::GitObjectSized;
pub use manifest::{IdScheme, Manifest, ManifestBuilder, ManifestEntry, TreeEntry};
pub use pointer::Pointer;
pub use post_commit::{FoldAction, FoldEvent, FoldPhase, PostCommit};
pub use pre_push::{pre_push, push_packs, Batch};
pub use sealed_stdout::{CommandOutput, SealedOutput};
pub use smudge::{smudge, Smudge, SmudgeAction, SmudgeEvent, SmudgePhase};
pub use splitter::{split_fixed, Part, Splitter};
pub use track::{TrackPattern, TreeChange};

verus! {

/// The namespace under which every durable reference of this library lives.
pub open spec fn gfs_ref_prefix() -> Seq<char> {
    "refs/gfs/"@
}

/// The name of the reference that keeps the object `id` reachable.
pub open spec fn gfs_ref_name(id: Seq<char>) -> Seq<char> {
    gfs_ref_prefix() + id
}

/// Creates the name of a reference underneath the namespace `refs/gfs`.
pub fn create_gfs_ref(id: &str) -> (name: String)
    ensures
        name@ == gfs_ref_name(id@),
{
    let mut name = String::from_str("refs/gfs/");
    name.append(id);
    name
}

} // verus!
