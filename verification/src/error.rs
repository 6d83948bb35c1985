//! Cache-level errors: what opening an index or fetching an archive can
//! fail with, read- and decode-level failures wrapped.

use crate::buf::ReadError;
use crate::decoder::DecodeError;
use vstd::prelude::*;

verus! {

/// What a cache operation can fail with.
#[derive(Debug)]
pub enum CacheError {
    /// The archive id is not in the index's catalog; carries the index id
    /// and the archive id.
    ArchiveNotFoundError(u32, u32),
    /// A cache file, or the store row of a catalogued archive, is missing;
    /// carries the path or a description.
    FileMissingError(String),
    /// A checksum did not match its catalog entry.
    CrcMismatch,
    /// A wrapped read-level failure.
    Read(ReadError),
    /// A wrapped decode-level failure.
    Decode(DecodeError),
}

} // verus!
