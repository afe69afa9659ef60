//! Taking a file in: its bytes are cut into chunks, each chunk is named by
//! its contents, and the names in their order are what the file becomes.

use vstd::prelude::*;
use crate::chunker::{
    chunker_takes, chunks_of, join_chunks, lemma_chunks_concat, lemma_ready_chunks,
    within_bounds, Chunker,
};
use crate::config::Config;
use crate::create_gfs_ref;
use crate::error::GfsError;
use crate::gfs_ref_name;
use crate::manifest::{
    content_id, content_ids, lemma_numbered_unbroken, make_content_id, IdScheme, Manifest,
};
use crate::part_name::{name_at, MAX_WIDTH};
use crate::pointer::{rendered, Pointer};
use crate::rows::{bytes_of, concat, each_once};
use crate::splitter::{bytes_of_parts, fixed_pieces, number_parts, numbered, Part};
use crate::text::same_text;

verus! {

/// The bounds of the content-defined chunking, in bytes.
#[derive(Debug, Clone, Copy, PartialEq, Eq)]
pub struct CleanOptions {
    pub min_size: u32,
    pub max_size: u32,
    pub avg_size: u32,
}

impl CleanOptions {
    /// Whether the bounds are in order: the smallest size is not above the
    /// average, nor the average above the largest, and none is zero.
    pub open spec fn in_order(self) -> bool {
        0 < self.min_size <= self.avg_size <= self.max_size
    }

    /// Whether a file can be chunked under the bounds: they are in order.
    pub open spec fn usable(self) -> bool {
        self.in_order()
    }

    /// The bounds that the chunker is handed for these: the nearest ones
    /// that it takes and that lie between the smallest and the largest size
    /// of these. The smallest size is raised to 64 where it is below, and to
    /// the next even number; the largest is lowered to 16 MiB where it is
    /// above, and to the even number before; the average is held between
    /// them and between 256 and 4 MiB, and made even. None where these
    /// bounds are out of order, or leave no room for bounds that the chunker
    /// takes.
    pub open spec fn fitted(self) -> Option<CleanOptions> {
        let raised: int = if self.min_size < 64 {
            64
        } else {
            self.min_size as int
        };
        let low = raised + raised % 2;
        let lowered: int = if self.max_size > 16_777_216 {
            16_777_216
        } else {
            self.max_size as int
        };
        let high = lowered - lowered % 2;
        if !self.in_order() || self.min_size > 1_048_576 || self.max_size < 1024 || low > high {
            None
        } else {
            let floor = if low < 256 {
                256
            } else {
                low
            };
            let ceiling = if high > 4_194_304 {
                4_194_304
            } else {
                high
            };
            let held: int = if self.avg_size < floor {
                floor
            } else if self.avg_size > ceiling {
                ceiling
            } else {
                self.avg_size as int
            };
            Some(
                CleanOptions {
                    min_size: low as u32,
                    max_size: high as u32,
                    avg_size: (held - held % 2) as u32,
                },
            )
        }
    }

    /// The smallest size that a chunk but the last has: that of the fitted
    /// bounds, or the average size where no bounds fit.
    pub open spec fn smallest(self) -> u32 {
        match self.fitted() {
            Some(fit) => fit.min_size,
            None => self.avg_size,
        }
    }

    /// The largest size that a chunk has: that of the fitted bounds, or the
    /// average size where no bounds fit.
    pub open spec fn largest(self) -> u32 {
        match self.fitted() {
            Some(fit) => fit.max_size,
            None => self.avg_size,
        }
    }

    /// The fitted bounds are bounds that the chunker takes, and lie between
    /// the smallest and the largest size asked for. Bounds that the chunker
    /// takes as they are stay as they are.
    pub proof fn lemma_fitted(self)
        ensures
            self.fitted() matches Some(fit) ==> chunker_takes(
                fit.min_size,
                fit.avg_size,
                fit.max_size,
            ) && self.min_size <= fit.min_size && fit.max_size <= self.max_size,
            self.in_order() && chunker_takes(self.min_size, self.avg_size, self.max_size)
                ==> self.fitted() == Some(self),
            self.in_order() ==> self.min_size <= self.smallest() <= self.largest()
                <= self.max_size && self.smallest() > 0,
            self.in_order() && self.min_size <= 64 && self.max_size >= 1024 ==> self.smallest()
                == 64,
    {
    }

    /// Fits the bounds to the chunker.
    pub fn fit(&self) -> (fit: Option<CleanOptions>)
        ensures
            fit == self.fitted(),
    {
        if !self.is_usable() || self.min_size > 1_048_576 || self.max_size < 1024 {
            return None;
        }
        let raised: u32 = if self.min_size < 64 {
            64
        } else {
            self.min_size
        };
        let low: u32 = raised + raised % 2;
        let lowered: u32 = if self.max_size > 16_777_216 {
            16_777_216
        } else {
            self.max_size
        };
        let high: u32 = lowered - lowered % 2;
        if low > high {
            return None;
        }
        let floor: u32 = if low < 256 {
            256
        } else {
            low
        };
        let ceiling: u32 = if high > 4_194_304 {
            4_194_304
        } else {
            high
        };
        let held: u32 = if self.avg_size < floor {
            floor
        } else if self.avg_size > ceiling {
            ceiling
        } else {
            self.avg_size
        };
        Some(CleanOptions { min_size: low, max_size: high, avg_size: held - held % 2 })
    }

    /// The bounds that the settings hold. Sizes of 2^32 bytes or more are
    /// refused.
    pub fn try_from(config: Config) -> (options: Result<CleanOptions, GfsError>)
        ensures
            options is Ok <==> config.avg_size <= u32::MAX && config.min_size <= u32::MAX
                && config.max_size <= u32::MAX,
            options matches Ok(o) ==> o.avg_size == config.avg_size && o.min_size
                == config.min_size && o.max_size == config.max_size,
            options matches Err(e) ==> e == GfsError::ConfigurationError,
    {
        if config.avg_size > u32::MAX as u64 || config.min_size > u32::MAX as u64
            || config.max_size > u32::MAX as u64 {
            return Err(GfsError::ConfigurationError);
        }
        Ok(
            CleanOptions {
                avg_size: config.avg_size as u32,
                min_size: config.min_size as u32,
                max_size: config.max_size as u32,
            },
        )
    }

    /// Whether a file can be chunked under the bounds.
    pub fn is_usable(&self) -> (usable: bool)
        ensures
            usable == self.usable(),
    {
        0 < self.min_size && self.min_size <= self.avg_size && self.avg_size <= self.max_size
    }
}

/// The width of the name of the first chunk of a file.
pub const NAME_WIDTH: usize = 4;

/// Cuts `data` into chunks within the bounds of `options`, and numbers and
/// names them from a first name of `factor` letters on.
fn chunk_parts(data: &[u8], options: CleanOptions, factor: usize) -> (parts: Result<
    Vec<Part>,
    GfsError,
>)
    ensures
        parts is Ok <==> options.in_order() && 0 < factor <= MAX_WIDTH,
        parts matches Ok(p) ==> bytes_of_parts(p@) == chunks_of(data@, options) && concat(
            bytes_of_parts(p@),
        ) == data@ && numbered(p@, factor as nat) && within_bounds(
            bytes_of_parts(p@),
            options.min_size,
            options.max_size,
        ) && within_bounds(bytes_of_parts(p@), options.smallest(), options.largest()),
        parts matches Err(e) ==> e == GfsError::ConfigurationError,
{
    let mut chunker = match Chunker::new(options) {
        Ok(chunker) => chunker,
        Err(e) => {
            return Err(e);
        },
    };
    let first = chunker.write(data);
    let ghost rest = chunker.buffer();
    let second = chunker.flush();
    let chunks = join_chunks(first, second);
    proof {
        assert(data@ + Seq::<u8>::empty() =~= data@);
        assert(rest + Seq::<u8>::empty() =~= rest);
        lemma_ready_chunks(data@, Seq::empty(), options);
        lemma_chunks_concat(data@, options);
        options.lemma_fitted();
        let all = bytes_of(chunks@);
        assert forall|k: int| 0 <= k < all.len() implies 0 < (#[trigger] all[k]).len()
            <= options.largest() by {
            if k < first.len() {
                assert(all[k] == first@[k]@);
            } else {
                assert(all[k] == bytes_of(second@)[k - first.len()]);
            }
        }
        assert forall|k: int| 0 <= k < all.len() - 1 implies (#[trigger] all[k]).len()
            >= options.smallest() by {
            if k < first.len() {
                assert(all[k] == first@[k]@);
            } else {
                assert(all[k] == bytes_of(second@)[k - first.len()]);
            }
        }
    }
    number_parts(chunks, factor)
}

/// Cuts `data` into chunks at the places that its contents decide, within
/// the bounds of `options`, and hands them out as parts, numbered from zero
/// on and named from a first name of `NAME_WIDTH` letters on. No chunk is
/// empty or longer than the largest size, and none but the last is shorter
/// than the smallest. Bounds that are out of order, or of which one is
/// zero, are refused.
pub fn split_into_chunks(data: &[u8], options: &CleanOptions) -> (parts: Result<
    Vec<Part>,
    GfsError,
>)
    ensures
        parts is Ok <==> options.in_order(),
        parts matches Ok(p) ==> bytes_of_parts(p@) == chunks_of(data@, *options) && concat(
            bytes_of_parts(p@),
        ) == data@ && numbered(p@, NAME_WIDTH as nat) && within_bounds(
            bytes_of_parts(p@),
            options.min_size,
            options.max_size,
        ) && within_bounds(bytes_of_parts(p@), options.smallest(), options.largest()),
        parts matches Ok(p) ==> (0 < data@.len() <= options.smallest() ==> bytes_of_parts(p@)
            == seq![data@]),
        parts matches Err(e) ==> e == GfsError::ConfigurationError,
{
    let parts = chunk_parts(data, *options, NAME_WIDTH);
    proof {
        if parts is Ok && 0 < data@.len() <= options.smallest() {
            lemma_one_chunk(
                bytes_of_parts(parts->Ok_0@),
                data@,
                options.smallest(),
                options.largest(),
            );
        }
    }
    parts
}

/// A file that is no longer than the smallest size of a chunk is one chunk,
/// which holds it.
pub proof fn lemma_one_chunk(pieces: Seq<Seq<u8>>, data: Seq<u8>, low: u32, high: u32)
    requires
        concat(pieces) == data,
        within_bounds(pieces, low, high),
        0 < data.len() <= low,
    ensures
        pieces == seq![data],
{
    if pieces.len() >= 2 {
        crate::rows::lemma_concat_holds(pieces.drop_last(), 0);
        assert(pieces.drop_last()[0] == pieces[0]);
        assert(concat(pieces).len() == concat(pieces.drop_last()).len() + pieces.last().len());
    } else if pieces.len() == 1 {
        assert(pieces.drop_last() =~= Seq::<Seq<u8>>::empty());
        assert(concat(pieces.drop_last()) =~= Seq::<u8>::empty());
        assert(pieces.last() == pieces[0]);
        assert(concat(pieces) =~= pieces[0]);
        assert(pieces =~= seq![data]);
    } else {
        assert(concat(pieces) =~= Seq::<u8>::empty());
    }
}

/// An object that is handed to the object store: the id under which it is
/// kept, and its bytes.
#[derive(Debug, Clone, PartialEq, Eq)]
pub struct Blob {
    pub id: String,
    pub bytes: Vec<u8>,
}

/// The ids of the blobs, in their order.
pub open spec fn blob_ids(blobs: Seq<Blob>) -> Seq<Seq<char>> {
    blobs.map_values(|blob: Blob| blob.id@)
}

/// Whether the blob holds the first of `pieces` that is stored under its
/// id, where `ids` are the ids of the pieces in their order.
pub open spec fn holds_first(blob: Blob, ids: Seq<Seq<char>>, pieces: Seq<Seq<u8>>) -> bool {
    exists|k: int|
        0 <= k < ids.len() && k < pieces.len() && blob.id@ == #[trigger] ids[k] && blob.bytes@
            == pieces[k] && forall|j: int| 0 <= j < k ==> #[trigger] ids[j] != blob.id@
}

/// The ids that the object store gives to blobs with the given contents.
pub open spec fn digests_of(pieces: Seq<Seq<u8>>) -> Seq<Seq<char>> {
    pieces.map_values(|bytes: Seq<u8>| crate::git_object_id::blob_id(bytes))
}

/// The names of the first `count` chunks of a file.
pub open spec fn names_of(count: nat) -> Seq<Seq<char>> {
    names_from(NAME_WIDTH as nat, count)
}

/// Whether `ids` holds the id `wanted`.
fn holds_id(blobs: &Vec<Blob>, wanted: &str) -> (held: bool)
    ensures
        held == blob_ids(blobs@).contains(wanted@),
{
    let mut i: usize = 0;
    while i < blobs.len()
        invariant
            i <= blobs.len(),
            forall|k: int| 0 <= k < i ==> blob_ids(blobs@)[k] != wanted@,
        decreases blobs.len() - i,
    {
        if same_text(blobs[i].id.as_str(), wanted) {
            assert(blob_ids(blobs@)[i as int] == wanted@);
            return true;
        }
        i += 1;
    }
    false
}

/// Gives the objects that have to be in the object store for the parts to
/// be kept: for each id under which a part is stored one blob, which holds
/// the first part with that id. Parts that share an id are stored once.
pub fn git_ensure_blobs(parts: &Vec<Part>, scheme: IdScheme) -> (blobs: Vec<Blob>)
    ensures
        blob_ids(blobs@) == each_once(content_ids(scheme, parts@)),
        forall|j: int|
            0 <= j < blobs.len() ==> holds_first(
                #[trigger] blobs@[j],
                content_ids(scheme, parts@),
                bytes_of_parts(parts@),
            ),
{
    let ghost ids = content_ids(scheme, parts@);
    let mut blobs: Vec<Blob> = Vec::new();
    let mut k: usize = 0;
    assert(ids.take(0) =~= Seq::<Seq<char>>::empty());
    while k < parts.len()
        invariant
            k <= parts.len(),
            ids == content_ids(scheme, parts@),
            blob_ids(blobs@) == each_once(ids.take(k as int)),
            forall|j: int|
                0 <= j < blobs.len() ==> holds_first(
                    #[trigger] blobs@[j],
                    ids,
                    bytes_of_parts(parts@),
                ),
        decreases parts.len() - k,
    {
        let part = &parts[k];
        proof {
            let upto = ids.take(k + 1);
            assert(upto.drop_last() == ids.take(k as int));
            assert(upto.last() == ids[k as int]);
            crate::rows::lemma_each_once(ids.take(k as int));
        }
        let id = make_content_id(scheme, part.name.as_str(), part.bytes.as_slice());
        if !holds_id(&blobs, id.as_str()) {
            let ghost before = blob_ids(blobs@);
            let blob = Blob { id, bytes: crate::text::copy_bytes(part.bytes.as_slice()) };
            proof {
                assert forall|j: int| 0 <= j < k implies #[trigger] ids[j] != blob.id@ by {
                    assert(ids.take(k as int)[j] == ids[j]);
                    assert(ids.take(k as int).contains(ids[j]));
                }
                assert(bytes_of_parts(parts@)[k as int] == blob.bytes@);
                assert(holds_first(blob, ids, bytes_of_parts(parts@)));
            }
            blobs.push(blob);
            assert(blob_ids(blobs@) =~= before.push(ids[k as int]));
        }
        k += 1;
    }
    assert(ids.take(parts.len() as int) == ids);
    blobs
}

/// How a file is split into parts.
#[derive(Debug, Clone, Copy, PartialEq, Eq)]
pub enum SplitPolicy {
    /// Into parts of `size` bytes, the last one holding what is left over.
    FixedSize { size: u32 },
    /// Into chunks that end where the contents decide, within bounds.
    ContentDefined { options: CleanOptions },
}

impl SplitPolicy {
    /// Whether a file can be split under the policy: the fixed size is not
    /// zero, or the bounds of the chunks are in order.
    pub open spec fn usable(self) -> bool {
        match self {
            SplitPolicy::FixedSize { size } => size > 0,
            SplitPolicy::ContentDefined { options } => options.in_order(),
        }
    }

    /// Whether the parts keep the sizes that the policy asks for: all but
    /// the last hold the fixed size and the last no more, or they lie within
    /// the bounds of the chunks.
    pub open spec fn keeps(self, pieces: Seq<Seq<u8>>) -> bool {
        match self {
            SplitPolicy::FixedSize { size } => crate::splitter::sized(pieces, size as nat),
            SplitPolicy::ContentDefined { options } => within_bounds(
                pieces,
                options.smallest(),
                options.largest(),
            ),
        }
    }

    /// The parts into which `data` is split under the policy.
    pub open spec fn pieces(self, data: Seq<u8>) -> Seq<Seq<u8>> {
        match self {
            SplitPolicy::FixedSize { size } => fixed_pieces(data, size as nat),
            SplitPolicy::ContentDefined { options } => chunks_of(data, options),
        }
    }

    /// The policy that the settings select: the fixed-size policy where
    /// they hold a fixed size, else the content-defined one with the bounds
    /// they hold. Sizes of 2^32 bytes or more are refused.
    pub fn from_config(config: Config) -> (policy: Result<SplitPolicy, GfsError>)
        ensures
            match config.fixed_size {
                Some(size) => if size <= u32::MAX {
                    policy == Ok::<SplitPolicy, GfsError>(
                        SplitPolicy::FixedSize { size: size as u32 },
                    )
                } else {
                    policy == Err::<SplitPolicy, GfsError>(GfsError::ConfigurationError)
                },
                None => if config.avg_size <= u32::MAX && config.min_size <= u32::MAX
                    && config.max_size <= u32::MAX {
                    policy == Ok::<SplitPolicy, GfsError>(
                        SplitPolicy::ContentDefined {
                            options: CleanOptions {
                                min_size: config.min_size as u32,
                                max_size: config.max_size as u32,
                                avg_size: config.avg_size as u32,
                            },
                        },
                    )
                } else {
                    policy == Err::<SplitPolicy, GfsError>(GfsError::ConfigurationError)
                },
            },
    {
        match config.fixed_size {
            Some(size) => {
                if size > u32::MAX as u64 {
                    Err(GfsError::ConfigurationError)
                } else {
                    Ok(SplitPolicy::FixedSize { size: size as u32 })
                }
            },
            None => match CleanOptions::try_from(config) {
                Ok(options) => Ok(SplitPolicy::ContentDefined { options }),
                Err(e) => Err(e),
            },
        }
    }
}

/// The parts of a file make up the file, whatever the policy under which
/// it is split.
pub proof fn lemma_pieces_concat(data: Seq<u8>, policy: SplitPolicy)
    requires
        policy.usable(),
    ensures
        concat(policy.pieces(data)) == data,
{
    match policy {
        SplitPolicy::FixedSize { size } => {
            crate::splitter::lemma_fixed_pieces_concat(data, size as nat);
        },
        SplitPolicy::ContentDefined { options } => {
            lemma_chunks_concat(data, options);
        },
    }
}

/// Splits `data` into parts under `policy`. The parts are numbered from
/// zero on, and named from a first name of `factor` letters on. A policy
/// under which no file can be split is refused, and so is a factor of zero
/// or above `MAX_WIDTH`.
pub fn split(data: &[u8], policy: SplitPolicy, factor: usize) -> (parts: Result<
    Vec<Part>,
    GfsError,
>)
    ensures
        parts is Ok <==> policy.usable() && 0 < factor <= MAX_WIDTH,
        parts matches Ok(p) ==> bytes_of_parts(p@) == policy.pieces(data@) && concat(
            bytes_of_parts(p@),
        ) == data@ && numbered(p@, factor as nat) && policy.keeps(bytes_of_parts(p@)),
        parts matches Err(e) ==> e == GfsError::ConfigurationError,
{
    match policy {
        SplitPolicy::FixedSize { size } => crate::splitter::split_fixed(data, size, factor),
        SplitPolicy::ContentDefined { options } => chunk_parts(data, options, factor),
    }
}

/// The ids under which parts with the given names and bytes are stored, in
/// their order.
pub open spec fn ids_of(scheme: IdScheme, names: Seq<Seq<char>>, pieces: Seq<Seq<u8>>) -> Seq<
    Seq<char>,
> {
    Seq::new(pieces.len(), |k: int| content_id(scheme, names[k], pieces[k]))
}

/// The names of the first `count` parts of a file, where the first name is
/// `width` letters wide.
pub open spec fn names_from(width: nat, count: nat) -> Seq<Seq<char>> {
    Seq::new(count, |k: int| name_at(width, k as nat))
}

/// What taking a file in comes to: the manifest of its parts, and the
/// objects that have to be in the object store for the manifest to hold.
#[derive(Debug, PartialEq, Eq)]
pub struct Cleaned {
    pub manifest: Manifest,
    pub blobs: Vec<Blob>,
}

/// Takes a file in: splits its bytes into parts under `policy`, names the
/// parts from a first name of `factor` letters on, gives each part the id
/// under which it is stored under `scheme`, and lists the parts in a
/// manifest. A policy under which no file can be split is refused, and so
/// is a factor of zero or above `MAX_WIDTH`. Bytes of no length make a
/// manifest without entries.
///
/// What is left to do is to store the blobs, to store the manifest, and to
/// publish the manifest under the id that the store gave it.
pub fn clean_with(
    data: &[u8],
    policy: SplitPolicy,
    scheme: IdScheme,
    factor: usize,
) -> (cleaned: Result<Cleaned, GfsError>)
    ensures
        cleaned is Ok <==> policy.usable() && 0 < factor <= MAX_WIDTH,
        cleaned matches Ok(c) ==> {
            let pieces = policy.pieces(data@);
            let names = names_from(factor as nat, pieces.len());
            let ids = ids_of(scheme, names, pieces);
            &&& concat(pieces) == data@
            &&& policy.keeps(pieces)
            &&& c.manifest.names() == names
            &&& c.manifest.ids() == ids
            &&& blob_ids(c.blobs@) == each_once(ids)
            &&& forall|j: int|
                0 <= j < c.blobs.len() ==> holds_first(#[trigger] c.blobs@[j], ids, pieces)
        },
        cleaned matches Err(e) ==> e == GfsError::ConfigurationError,
{
    let parts = match split(data, policy, factor) {
        Ok(parts) => parts,
        Err(e) => {
            return Err(e);
        },
    };
    proof {
        let pieces = policy.pieces(data@);
        let names = names_from(factor as nat, pieces.len());
        lemma_numbered_unbroken(parts@, factor as nat);
        assert(crate::manifest::part_names(parts@) =~= names);
        assert(content_ids(scheme, parts@) =~= ids_of(scheme, names, pieces)) by {
            assert forall|k: int| 0 <= k < parts@.len() implies content_ids(scheme, parts@)[k]
                == ids_of(scheme, names, pieces)[k] by {
                assert(bytes_of_parts(parts@)[k] == parts@[k].bytes@);
            }
        }
    }
    let manifest = match Manifest::build(&parts, scheme) {
        Ok(manifest) => manifest,
        Err(e) => {
            return Err(e);
        },
    };
    let blobs = git_ensure_blobs(&parts, scheme);
    Ok(Cleaned { manifest, blobs })
}

/// Takes a file in: cuts its bytes into chunks within the bounds of
/// `options`, names each chunk by its contents, and lists the chunks in a
/// manifest. Bounds that are out of order, or of which one is zero, are refused.
pub fn clean(data: &[u8], options: CleanOptions) -> (cleaned: Result<Cleaned, GfsError>)
    ensures
        cleaned is Ok <==> options.in_order(),
        cleaned matches Ok(c) ==> {
            let pieces = chunks_of(data@, options);
            &&& concat(pieces) == data@
            &&& within_bounds(pieces, options.min_size, options.max_size)
            &&& within_bounds(pieces, options.smallest(), options.largest())
            &&& 0 < data@.len() <= options.smallest() ==> pieces == seq![data@]
            &&& c.manifest.names() == names_of(pieces.len())
            &&& c.manifest.ids() == digests_of(pieces)
            &&& blob_ids(c.blobs@) == each_once(digests_of(pieces))
            &&& forall|j: int|
                0 <= j < c.blobs.len() ==> holds_first(
                    #[trigger] c.blobs@[j],
                    digests_of(pieces),
                    pieces,
                )
        },
        cleaned matches Err(e) ==> e == GfsError::ConfigurationError,
{
    proof {
        let pieces = chunks_of(data@, options);
        assert(ids_of(IdScheme::ContentDerived, names_of(pieces.len()), pieces) =~= digests_of(
            pieces,
        ));
        options.lemma_fitted();
        lemma_chunks_concat(data@, options);
        if options.in_order() && 0 < data@.len() <= options.smallest() && within_bounds(
            pieces,
            options.smallest(),
            options.largest(),
        ) {
            lemma_one_chunk(pieces, data@, options.smallest(), options.largest());
        }
    }
    clean_with(
        data,
        SplitPolicy::ContentDefined { options },
        IdScheme::ContentDerived,
        NAME_WIDTH,
    )
}

/// Takes a file in under the fixed-size policy: cuts its bytes into parts
/// of `size` bytes, the last one holding what is left over, names each part
/// by its place, from a first name of `factor` letters on, and lists the
/// parts in a manifest. No two parts share a name, so each part is stored.
/// A size of zero is refused, and so is a factor of zero or above
/// `MAX_WIDTH`.
pub fn clean_fixed(data: &[u8], size: u32, factor: usize) -> (cleaned: Result<Cleaned, GfsError>)
    ensures
        cleaned is Ok <==> size > 0 && 0 < factor <= MAX_WIDTH,
        cleaned matches Ok(c) ==> {
            let pieces = fixed_pieces(data@, size as nat);
            &&& concat(pieces) == data@
            &&& c.manifest.names() == names_from(factor as nat, pieces.len())
            &&& c.manifest.ids() == c.manifest.names()
            &&& blob_ids(c.blobs@) == c.manifest.ids()
            &&& c.blobs@.map_values(|blob: Blob| blob.bytes@) == pieces
        },
        cleaned matches Err(e) ==> e == GfsError::ConfigurationError,
{
    let cleaned = clean_with(
        data,
        SplitPolicy::FixedSize { size },
        IdScheme::PositionDerived,
        factor,
    );
    proof {
        if cleaned is Ok {
            let blobs = cleaned->Ok_0.blobs@;
            let pieces = fixed_pieces(data@, size as nat);
            let names = names_from(factor as nat, pieces.len());
            assert(ids_of(IdScheme::PositionDerived, names, pieces) =~= names);
            assert forall|i: int, j: int| 0 <= i < names.len() && 0 <= j < names.len() && i
                != j implies names[i] != names[j] by {
                if i < j {
                    crate::part_name::lemma_names_sort(factor as nat, i as nat, j as nat);
                } else {
                    crate::part_name::lemma_names_sort(factor as nat, j as nat, i as nat);
                }
            }
            crate::rows::lemma_each_once_keeps_distinct(names);
            assert forall|j: int| 0 <= j < blobs.len() implies (#[trigger] blobs[j]).bytes@
                == pieces[j] by {
                assert(holds_first(blobs[j], names, pieces));
                assert(blob_ids(blobs)[j] == names[j]);
            }
            assert(blobs.map_values(|blob: Blob| blob.bytes@) =~= pieces);
        }
    }
    cleaned
}

/// What is published for a manifest once the object store has given it an
/// id: the reference that keeps it, and the text that is committed in place
/// of the file.
#[derive(Debug, Clone, PartialEq, Eq)]
pub struct Publication {
    pub reference: String,
    pub target: String,
    pub pointer: String,
}

/// Gives what is published for the manifest that the object store keeps
/// under `manifest_id`: the reference `refs/gfs/<id>` to it, and the text of
/// the pointer to it. Publishing the same manifest again names the same
/// reference.
pub fn publish(manifest_id: &str) -> (publication: Publication)
    ensures
        publication.reference@ == gfs_ref_name(manifest_id@),
        publication.target@ == manifest_id@,
        publication.pointer@ == rendered(manifest_id@),
{
    Publication {
        reference: create_gfs_ref(manifest_id),
        target: String::from_str(manifest_id),
        pointer: Pointer::from_hash(manifest_id).render(),
    }
}

} // verus!
