//! The settings of the library: how files are split and their parts are
//! named, the sizes of the parts, and the limit of a push. All sizes are in
//! bytes.

use vstd::prelude::*;
use crate::manifest::IdScheme;

verus! {

/// The settings of the library.
#[derive(Debug, Clone, Copy, PartialEq, Eq)]
pub struct Config {
    /// The size around which the content-defined chunking keeps its chunks.
    pub avg_size: u64,
    /// The smallest size of a chunk.
    pub min_size: u64,
    /// The largest size of a chunk.
    pub max_size: u64,
    /// The size of a part where files are split into parts of a fixed size;
    /// none where they are cut at places that their contents decide.
    pub fixed_size: Option<u64>,
    /// How the stored parts are named.
    pub scheme: IdScheme,
    /// The largest size of one pack of a push.
    pub limit: u64,
}

/// Calls `bytesize::ByteSize::kb` and reads the bytes back with `as_u64`: a
/// thousand bytes for each kilobyte. The product is taken in `u64`.
#[verifier::external_body]
fn kilobytes(count: u64) -> (bytes: u64)
    requires
        count * 1_000 <= u64::MAX,
    ensures
        bytes == count * 1_000,
{
    bytesize::ByteSize::kb(count).as_u64()
}

/// Calls `bytesize::ByteSize::mb` and reads the bytes back with `as_u64`: a
/// million bytes for each megabyte. The product is taken in `u64`.
#[verifier::external_body]
fn megabytes(count: u64) -> (bytes: u64)
    requires
        count * 1_000_000 <= u64::MAX,
    ensures
        bytes == count * 1_000_000,
{
    bytesize::ByteSize::mb(count).as_u64()
}

/// The average size of a chunk where none is set: a hundred kilobytes.
pub fn avg_size() -> (bytes: u64)
    ensures
        bytes == 100_000,
{
    kilobytes(100)
}

/// The smallest size of a chunk where none is set: one byte.
pub fn min_size() -> (bytes: u64)
    ensures
        bytes == 1,
{
    1
}

/// The largest size of a chunk where none is set: one megabyte.
pub fn max_size() -> (bytes: u64)
    ensures
        bytes == 1_000_000,
{
    megabytes(1)
}

/// The largest size of one pack where none is set: five hundred megabytes.
pub fn push_limit() -> (bytes: u64)
    ensures
        bytes == 500_000_000,
{
    megabytes(500)
}

impl Default for Config {
    /// The settings that hold where none are set.
    fn default() -> (config: Config)
        ensures
            config.avg_size == 100_000,
            config.min_size == 1,
            config.max_size == 1_000_000,
            config.fixed_size is None,
            config.scheme is PositionDerived,
            config.limit == 500_000_000,
    {
        Config {
            avg_size: avg_size(),
            min_size: min_size(),
            max_size: max_size(),
            fixed_size: None,
            scheme: IdScheme::PositionDerived,
            limit: push_limit(),
        }
    }
}

} // verus!
