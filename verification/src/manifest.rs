//! The manifest: the ordered list of the stored parts of one version of a
//! file.
//!
//! A manifest is kept in the object store as a tree with one entry for each
//! part. The entry's name is the name of the part, so the tree, which the
//! store orders by name, lists the parts in their order, and a part that is
//! missing shows as a break in the row of names.

use vstd::prelude::*;
use crate::error::GfsError;
use crate::git_object_id::{blob_id, GitObjectId};
use crate::part_name::{
    first_name, first_part_name, lemma_name_at_is_name, name_after, name_at, next_part_name,
    MAX_WIDTH,
};
use crate::rows::texts_of;
use crate::splitter::{numbered, Part};
use crate::text::{chars_of, same_text};

verus! {

/// How the stored parts are named.
#[derive(Debug, Clone, Copy, PartialEq, Eq, Structural)]
pub enum IdScheme {
    /// By a digest of their bytes: equal parts share one stored object.
    ContentDerived,
    /// By their place in the file.
    PositionDerived,
}

/// One entry of the tree that holds a manifest: the name of a part, and the
/// id under which the part is stored.
#[derive(Debug, Clone, PartialEq, Eq)]
pub struct TreeEntry {
    pub name: String,
    pub id: String,
}

/// One entry of a manifest: the place of a part in the file, its name, and
/// the id under which it is stored.
#[derive(Debug, Clone, PartialEq, Eq)]
pub struct ManifestEntry {
    pub index: usize,
    pub name: String,
    pub id: String,
}

/// The ordered list of the stored parts of one version of a file.
#[derive(Debug, PartialEq, Eq)]
pub struct Manifest {
    entries: Vec<ManifestEntry>,
}

/// The names of the entries of a tree.
pub open spec fn tree_names(tree: Seq<TreeEntry>) -> Seq<Seq<char>> {
    tree.map_values(|entry: TreeEntry| entry.name@)
}

/// The ids of the entries of a tree.
pub open spec fn tree_ids(tree: Seq<TreeEntry>) -> Seq<Seq<char>> {
    tree.map_values(|entry: TreeEntry| entry.id@)
}

/// Whether the names are the names of the parts of one file with none
/// missing: the first is a row of the letter `a`, and each is the name of
/// the part at its place.
pub open spec fn unbroken(names: Seq<Seq<char>>) -> bool {
    names.len() > 0 ==> names[0].len() > 0 && forall|k: int|
        0 <= k < names.len() ==> #[trigger] names[k] == name_at(names[0].len(), k as nat)
}

/// The id under which a part with the given name and bytes is stored.
pub open spec fn content_id(scheme: IdScheme, name: Seq<char>, bytes: Seq<u8>) -> Seq<char> {
    match scheme {
        IdScheme::ContentDerived => blob_id(bytes),
        IdScheme::PositionDerived => name,
    }
}

/// The ids under which the parts are stored, in their order.
pub open spec fn content_ids(scheme: IdScheme, parts: Seq<Part>) -> Seq<Seq<char>> {
    parts.map_values(|part: Part| content_id(scheme, part.name@, part.bytes@))
}

/// The names of the parts, in their order.
pub open spec fn part_names(parts: Seq<Part>) -> Seq<Seq<char>> {
    parts.map_values(|part: Part| part.name@)
}

/// Names the contents of a part with the given name and bytes under the
/// given scheme.
pub fn make_content_id(scheme: IdScheme, name: &str, bytes: &[u8]) -> (id: String)
    ensures
        id@ == content_id(scheme, name@, bytes@),
{
    match scheme {
        IdScheme::ContentDerived => {
            let id = GitObjectId::from_contents(bytes);
            String::from_str(id.as_str())
        },
        IdScheme::PositionDerived => String::from_str(name),
    }
}

/// Whether `name` is a row of the letter `a`, at least one.
fn is_first_name(name: &str) -> (first: bool)
    ensures
        first == (name@.len() > 0 && name@ == first_name(name@.len())),
{
    let chars = chars_of(name);
    if chars.len() == 0 {
        return false;
    }
    let mut i: usize = 0;
    while i < chars.len()
        invariant
            i <= chars.len(),
            chars@ == name@,
            forall|k: int| 0 <= k < i ==> chars@[k] == 'a',
        decreases chars.len() - i,
    {
        if chars[i] != 'a' {
            assert(name@[i as int] != first_name(name@.len())[i as int]);
            return false;
        }
        i += 1;
    }
    assert(name@ =~= first_name(name@.len()));
    true
}

/// Whether the names are the names of the parts of one file with none
/// missing.
pub fn check_unbroken(names: &Vec<String>) -> (whole: bool)
    ensures
        whole == unbroken(texts_of(names@)),
{
    if names.len() == 0 {
        return true;
    }
    let ghost all = texts_of(names@);
    if !is_first_name(names[0].as_str()) {
        assert(all[0] == names@[0]@);
        assert(name_at(all[0].len(), 0) == first_name(all[0].len()));
        return false;
    }
    let ghost width = all[0].len();
    let mut k: usize = 0;
    while k + 1 < names.len()
        invariant
            k < names.len(),
            all == texts_of(names@),
            width == all[0].len(),
            width > 0,
            forall|j: int| 0 <= j <= k ==> #[trigger] all[j] == name_at(width, j as nat),
        decreases names.len() - k,
    {
        proof {
            lemma_name_at_is_name(width, k as nat);
            assert(all[k as int] == names@[k as int]@);
            assert(all[k + 1] == names@[k + 1]@);
        }
        let expected = next_part_name(names[k].clone());
        if !same_text(expected.unwrap().as_str(), names[k + 1].as_str()) {
            assert(name_at(width, (k + 1) as nat) == name_after(name_at(width, k as nat)));
            return false;
        }
        k += 1;
    }
    true
}

impl Manifest {
    #[verifier::type_invariant]
    spec fn well_formed(self) -> bool {
        &&& unbroken(self.entries@.map_values(|entry: ManifestEntry| entry.name@))
        &&& forall|k: int| 0 <= k < self.entries@.len() ==> (#[trigger] self.entries@[k]).index == k
    }

    /// The names of the parts, in their order.
    pub closed spec fn names(self) -> Seq<Seq<char>> {
        self.entries@.map_values(|entry: ManifestEntry| entry.name@)
    }

    /// The ids under which the parts are stored, in their order.
    pub closed spec fn ids(self) -> Seq<Seq<char>> {
        self.entries@.map_values(|entry: ManifestEntry| entry.id@)
    }

    /// The entries of the manifest.
    pub closed spec fn entries_view(self) -> Seq<ManifestEntry> {
        self.entries@
    }

    /// The manifest of the given parts under the given scheme. Parts that
    /// are not numbered from zero on without a gap, or not named as their
    /// numbers ask, make no manifest.
    pub fn build(parts: &Vec<Part>, scheme: IdScheme) -> (manifest: Result<Manifest, GfsError>)
        ensures
            manifest is Ok <==> unbroken(part_names(parts@)) && forall|k: int|
                0 <= k < parts.len() ==> (#[trigger] parts@[k]).index == k,
            manifest matches Ok(m) ==> m.names() == part_names(parts@) && m.ids() == content_ids(
                scheme,
                parts@,
            ),
            manifest matches Err(e) ==> e == GfsError::TruncatedManifest,
    {
        let mut entries: Vec<ManifestEntry> = Vec::new();
        let mut names: Vec<String> = Vec::new();
        let mut k: usize = 0;
        while k < parts.len()
            invariant
                k <= parts.len(),
                entries.len() == k,
                names.len() == k,
                forall|j: int| 0 <= j < k ==> (#[trigger] parts@[j]).index == j,
                forall|j: int| 0 <= j < k ==> (#[trigger] entries@[j]).index == j,
                forall|j: int| 0 <= j < k ==> (#[trigger] entries@[j]).name@ == parts@[j].name@,
                forall|j: int| 0 <= j < k ==> (#[trigger] names@[j])@ == parts@[j].name@,
                forall|j: int|
                    0 <= j < k ==> (#[trigger] entries@[j]).id@ == content_id(
                        scheme,
                        parts@[j].name@,
                        parts@[j].bytes@,
                    ),
            decreases parts.len() - k,
        {
            let part = &parts[k];
            if part.index != k {
                return Err(GfsError::TruncatedManifest);
            }
            let id = make_content_id(scheme, part.name.as_str(), part.bytes.as_slice());
            entries.push(ManifestEntry { index: k, name: part.name.clone(), id });
            names.push(part.name.clone());
            k += 1;
        }
        assert(texts_of(names@) =~= part_names(parts@));
        if !check_unbroken(&names) {
            return Err(GfsError::TruncatedManifest);
        }
        assert(entries@.map_values(|entry: ManifestEntry| entry.name@) =~= part_names(parts@));
        assert(entries@.map_values(|entry: ManifestEntry| entry.id@) =~= content_ids(
            scheme,
            parts@,
        ));
        Ok(Manifest { entries })
    }

    /// The manifest that a tree holds, the entries taken in the order of the
    /// tree. A tree whose names are not the names of the parts of one file
    /// with none missing holds a truncated manifest.
    pub fn from_tree(tree: &Vec<TreeEntry>) -> (manifest: Result<Manifest, GfsError>)
        ensures
            manifest is Ok <==> unbroken(tree_names(tree@)),
            manifest matches Ok(m) ==> m.names() == tree_names(tree@) && m.ids() == tree_ids(
                tree@,
            ),
            manifest matches Err(e) ==> e == GfsError::TruncatedManifest,
    {
        let mut entries: Vec<ManifestEntry> = Vec::new();
        let mut names: Vec<String> = Vec::new();
        let mut k: usize = 0;
        while k < tree.len()
            invariant
                k <= tree.len(),
                entries.len() == k,
                names.len() == k,
                forall|j: int| 0 <= j < k ==> (#[trigger] entries@[j]).index == j,
                forall|j: int| 0 <= j < k ==> (#[trigger] entries@[j]).name@ == tree@[j].name@,
                forall|j: int| 0 <= j < k ==> (#[trigger] names@[j])@ == tree@[j].name@,
                forall|j: int| 0 <= j < k ==> (#[trigger] entries@[j]).id@ == tree@[j].id@,
            decreases tree.len() - k,
        {
            entries.push(
                ManifestEntry { index: k, name: tree[k].name.clone(), id: tree[k].id.clone() },
            );
            names.push(tree[k].name.clone());
            k += 1;
        }
        assert(texts_of(names@) =~= tree_names(tree@));
        if !check_unbroken(&names) {
            return Err(GfsError::TruncatedManifest);
        }
        assert(entries@.map_values(|entry: ManifestEntry| entry.name@) =~= tree_names(tree@));
        assert(entries@.map_values(|entry: ManifestEntry| entry.id@) =~= tree_ids(tree@));
        Ok(Manifest { entries })
    }

    /// The tree that holds the manifest.
    pub fn to_tree(&self) -> (tree: Vec<TreeEntry>)
        ensures
            tree_names(tree@) == self.names(),
            tree_ids(tree@) == self.ids(),
            unbroken(self.names()),
    {
        proof {
            use_type_invariant(self);
        }
        let mut tree: Vec<TreeEntry> = Vec::new();
        let mut k: usize = 0;
        while k < self.entries.len()
            invariant
                k <= self.entries.len(),
                tree.len() == k,
                forall|j: int| 0 <= j < k ==> (#[trigger] tree@[j]).name@ == self.entries@[j].name@,
                forall|j: int| 0 <= j < k ==> (#[trigger] tree@[j]).id@ == self.entries@[j].id@,
            decreases self.entries.len() - k,
        {
            tree.push(
                TreeEntry { name: self.entries[k].name.clone(), id: self.entries[k].id.clone() },
            );
            k += 1;
        }
        assert(tree_names(tree@) =~= self.names());
        assert(tree_ids(tree@) =~= self.ids());
        tree
    }

    /// The tree that holds the manifest where the store keeps the parts
    /// under the ids `stored`, which are given in the order of the parts: the
    /// name of each part, and the id under which the store keeps it. None
    /// where there are more or fewer ids than parts.
    pub fn tree_of_stored(&self, stored: &Vec<String>) -> (tree: Option<Vec<TreeEntry>>)
        ensures
            tree is Some <==> stored@.len() == self.names().len(),
            tree matches Some(t) ==> tree_names(t@) == self.names() && tree_ids(t@) == texts_of(
                stored@,
            ),
            unbroken(self.names()),
    {
        proof {
            use_type_invariant(self);
        }
        if stored.len() != self.entries.len() {
            return None;
        }
        let mut tree: Vec<TreeEntry> = Vec::new();
        let mut k: usize = 0;
        while k < self.entries.len()
            invariant
                k <= self.entries.len(),
                stored.len() == self.entries.len(),
                tree.len() == k,
                forall|j: int| 0 <= j < k ==> (#[trigger] tree@[j]).name@ == self.entries@[j].name@,
                forall|j: int| 0 <= j < k ==> (#[trigger] tree@[j]).id@ == stored@[j]@,
            decreases self.entries.len() - k,
        {
            tree.push(TreeEntry { name: self.entries[k].name.clone(), id: stored[k].clone() });
            k += 1;
        }
        assert(tree_names(tree@) =~= self.names());
        assert(tree_ids(tree@) =~= texts_of(stored@));
        Some(tree)
    }

    /// The number of parts.
    pub fn len(&self) -> (len: usize)
        ensures
            len == self.ids().len(),
            len == self.names().len(),
    {
        self.entries.len()
    }

    /// The entries, in the order of the parts: the entry at each place holds
    /// that place, and the name and the id of the part there.
    pub fn entries(&self) -> (entries: &Vec<ManifestEntry>)
        ensures
            entries@ == self.entries_view(),
            entries@.len() == self.names().len(),
            entries@.len() == self.ids().len(),
            unbroken(self.names()),
            forall|k: int|
                0 <= k < entries@.len() ==> (#[trigger] entries@[k]).index == k
                    && entries@[k].name@ == self.names()[k] && entries@[k].id@ == self.ids()[k],
    {
        proof {
            use_type_invariant(self);
        }
        &self.entries
    }

    /// The ids under which the parts are stored, in their order.
    pub fn part_ids(&self) -> (ids: Vec<String>)
        ensures
            texts_of(ids@) == self.ids(),
    {
        let mut ids: Vec<String> = Vec::new();
        let mut k: usize = 0;
        while k < self.entries.len()
            invariant
                k <= self.entries.len(),
                ids.len() == k,
                forall|j: int| 0 <= j < k ==> (#[trigger] ids@[j])@ == self.entries@[j].id@,
            decreases self.entries.len() - k,
        {
            ids.push(self.entries[k].id.clone());
            k += 1;
        }
        assert(texts_of(ids@) =~= self.ids());
        ids
    }
}

/// Builds the manifest of one version of a file while its parts come in.
///
/// Each part is given the next place and the name of that place, and the id
/// under which it is to be stored. The parts themselves are not kept.
pub struct ManifestBuilder {
    scheme: IdScheme,
    width: usize,
    entries: Vec<ManifestEntry>,
}

impl ManifestBuilder {
    #[verifier::type_invariant]
    spec fn well_formed(self) -> bool {
        &&& 0 < self.width <= MAX_WIDTH
        &&& forall|k: int|
            0 <= k < self.entries@.len() ==> (#[trigger] self.entries@[k]).index == k
                && self.entries@[k].name@ == name_at(self.width as nat, k as nat)
    }

    /// How the parts are named in the store.
    pub closed spec fn scheme(self) -> IdScheme {
        self.scheme
    }

    /// The width of the name of the first part.
    pub closed spec fn width(self) -> nat {
        self.width as nat
    }

    /// The ids of the parts that were added, in their order.
    pub closed spec fn ids(self) -> Seq<Seq<char>> {
        self.entries@.map_values(|entry: ManifestEntry| entry.id@)
    }

    /// A builder without a part, for parts that are named in the store
    /// under `scheme`, and whose first name is `factor` letters wide. A
    /// factor of zero or above `MAX_WIDTH` is refused.
    pub fn new(scheme: IdScheme, factor: usize) -> (builder: Result<ManifestBuilder, GfsError>)
        ensures
            builder is Ok <==> 0 < factor <= MAX_WIDTH,
            builder matches Ok(b) ==> b.scheme() == scheme && b.width() == factor && b.ids()
                == Seq::<Seq<char>>::empty(),
            builder matches Err(e) ==> e == GfsError::ConfigurationError,
    {
        if factor == 0 || factor > MAX_WIDTH {
            return Err(GfsError::ConfigurationError);
        }
        let builder = ManifestBuilder { scheme, width: factor, entries: Vec::new() };
        assert(builder.ids() =~= Seq::<Seq<char>>::empty());
        Ok(builder)
    }

    /// Adds the next part, which holds `bytes`. Returns its entry, and
    /// whether its id is new: no part before it is stored under the same id.
    /// Only a part with a new id has to be handed to the store.
    pub fn add(&mut self, bytes: &[u8]) -> (added: (ManifestEntry, bool))
        ensures
            final(self).scheme() == old(self).scheme(),
            final(self).width() == old(self).width(),
            old(self).width() > 0,
            added.0.index == old(self).ids().len(),
            added.0.name@ == name_at(old(self).width(), old(self).ids().len()),
            added.0.id@ == content_id(old(self).scheme(), added.0.name@, bytes@),
            final(self).ids() == old(self).ids().push(added.0.id@),
            added.1 == !old(self).ids().contains(added.0.id@),
    {
        proof {
            use_type_invariant(&*self);
        }
        let index = self.entries.len();
        let name = if index == 0 {
            first_part_name(self.width).unwrap()
        } else {
            proof {
                lemma_name_at_is_name(self.width as nat, (index - 1) as nat);
            }
            next_part_name(self.entries[index - 1].name.clone()).unwrap()
        };
        let id = make_content_id(self.scheme, name.as_str(), bytes);
        let ghost before = self.ids();
        let mut fresh = true;
        let mut k: usize = 0;
        while k < index
            invariant
                k <= index,
                index == self.entries.len(),
                before == self.ids(),
                fresh == forall|j: int| 0 <= j < k ==> before[j] != id@,
            decreases index - k,
        {
            if same_text(self.entries[k].id.as_str(), id.as_str()) {
                assert(before[k as int] == id@);
                fresh = false;
            }
            k += 1;
        }
        let entry = ManifestEntry { index, name: name.clone(), id: id.clone() };
        let mut entries: Vec<ManifestEntry> = Vec::new();
        core::mem::swap(&mut entries, &mut self.entries);
        entries.push(ManifestEntry { index, name, id });
        self.entries = entries;
        assert(self.ids() =~= before.push(entry.id@));
        (entry, fresh)
    }

    /// The manifest of the parts that were added.
    pub fn finish(self) -> (manifest: Manifest)
        ensures
            manifest.ids() == self.ids(),
            manifest.names() == Seq::new(
                self.ids().len(),
                |k: int| name_at(self.width(), k as nat),
            ),
    {
        proof {
            use_type_invariant(&self);
            let names = self.entries@.map_values(|entry: ManifestEntry| entry.name@);
            if names.len() > 0 {
                assert(names[0] == self.entries@[0].name@);
                assert(name_at(self.width as nat, 0) == first_name(self.width as nat));
                assert forall|k: int| 0 <= k < names.len() implies #[trigger] names[k]
                    == name_at(names[0].len(), k as nat) by {
                    assert(names[k] == self.entries@[k].name@);
                }
            }
            assert(names =~= Seq::new(
                self.ids().len(),
                |k: int| name_at(self.width as nat, k as nat),
            ));
        }
        Manifest { entries: self.entries }
    }
}

/// Parts that are numbered and named in their order have names with none
/// missing.
pub proof fn lemma_numbered_unbroken(parts: Seq<Part>, width: nat)
    requires
        numbered(parts, width),
        width > 0,
    ensures
        unbroken(part_names(parts)),
{
    if parts.len() > 0 {
        let names = part_names(parts);
        assert(names[0] == parts[0].name@);
        assert(name_at(width, 0) == first_name(width));
        assert(names[0].len() == width);
        assert forall|k: int| 0 <= k < names.len() implies #[trigger] names[k] == name_at(
            names[0].len(),
            k as nat,
        ) by {
            assert(names[k] == parts[k].name@);
        }
    }
}

} // verus!
