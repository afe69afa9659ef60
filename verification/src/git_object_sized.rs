//! A blob of the object store with its size.

use vstd::prelude::*;
use crate::error::GfsError;
use crate::git_object_id::{blob_id, GitObjectId};

verus! {

/// The id of a blob together with the number of bytes it holds.
#[derive(Debug, Clone, PartialEq, Eq)]
pub struct GitObjectSized {
    object_id: GitObjectId,
    size: u32,
}

impl GitObjectSized {
    /// The id of the blob.
    pub closed spec fn id_view(self) -> Seq<char> {
        self.object_id@
    }

    /// The number of bytes of the blob.
    pub closed spec fn size_view(self) -> u32 {
        self.size
    }

    /// The blob with the contents `contents`, as the object store names and
    /// sizes it. Contents of 2^32 bytes or more have no size here and are
    /// refused.
    pub fn from_contents(contents: &[u8]) -> (sized: Result<GitObjectSized, GfsError>)
        ensures
            sized is Ok <==> contents@.len() <= u32::MAX,
            sized matches Ok(s) ==> s.id_view() == blob_id(contents@) && s.size_view()
                == contents@.len(),
            sized matches Err(e) ==> (e matches GfsError::IoError(d) && d@ == too_large()),
    {
        if contents.len() > u32::MAX as usize {
            return Err(GfsError::IoError(String::from_str("contents of 2^32 bytes or more")));
        }
        let object_id = GitObjectId::from_contents(contents);
        GitObjectSized::try_from(object_id, contents.len() as u32)
    }

    /// The blob with the given id and size.
    pub fn try_from(object_id: GitObjectId, size: u32) -> (sized: Result<GitObjectSized, GfsError>)
        ensures
            sized matches Ok(s) && s.id_view() == object_id@ && s.size_view() == size,
    {
        Ok(GitObjectSized { object_id, size })
    }

    /// The number of bytes of the blob.
    pub fn size(&self) -> (size: &u32)
        ensures
            *size == self.size_view(),
    {
        &self.size
    }

    /// The id of the blob.
    pub fn object_id(&self) -> (id: &GitObjectId)
        ensures
            id@ == self.id_view(),
    {
        &self.object_id
    }
}

/// The diagnostic text for contents that are too large to be sized.
pub open spec fn too_large() -> Seq<char> {
    "contents of 2^32 bytes or more"@
}

} // verus!
