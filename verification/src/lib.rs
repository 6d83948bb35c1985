//! Core of a cache-decoding toolkit for a versioned, indexed, compressed
//! on-disk asset database.
//!
//! The crate is organised leaves-first:
//! - [`buf`] is the binary read layer: a cursor over bytes with the
//!   game-specific integer, string and flag codecs, and the read errors.
//! - [`decoder`] recognises the compression envelopes and produces the
//!   decompressed payload, decrypting when a key is supplied.
//! - [`xtea`] is the block cipher used by encrypted envelopes.
//! - [`error`] is the cache-level error surface.
//! - [`meta`] parses the per-index catalog into typed archive metadata.
//! - [`arc`] splits a decompressed archive payload into its child files.
//! - [`index`] is the stateful handle over one index: lookup, retention,
//!   and (grouped) iteration.
//! - [`mapsquares`] adapts index iteration to the map-square grid.
//! - [`render`] holds the configuration constants used by map renderers.

pub mod arc;
pub mod buf;
pub mod decoder;
pub mod error;
pub mod index;
pub mod mapsquares;
pub mod meta;
pub mod render;
pub mod xtea;

use vstd::prelude::*;

verus! {

/// Index ids recognised by the cache format.
pub struct IndexType;

impl IndexType {
    /// Animation frames.
    pub const FRAMES: u32 = 0;
    /// Frame maps.
    pub const FRAMEMAPS: u32 = 1;
    /// Configuration records.
    pub const CONFIG: u32 = 2;
    /// Map squares.
    pub const MAPSV2: u32 = 5;
    /// Music tracks.
    pub const MUSICS: u32 = 6;
    /// Models.
    pub const MODELS: u32 = 7;
    /// Sprites.
    pub const SPRITES: u32 = 8;
    /// Textures.
    pub const TEXTURES: u32 = 9;
    /// Huffman tables.
    pub const HUFFMAN: u32 = 10;
}

} // verus!
