//! Configuration constants for the map renderers that consume grouped
//! map-square iteration. The rendering itself lives outside the library.

use vstd::prelude::*;

verus! {

/// The knobs of a map render pass.
pub struct RenderConfig {
    /// The map to render; `-1` is the real world map.
    pub map_id: i32,
    /// The scale factor; never zero.
    pub scale: u32,
    /// The height and width of one tile in pixels.
    pub tile_size: u32,
    /// The highest zoom level rendered.
    pub initial_zoom: i8,
    /// The range at which underlays are blended.
    pub interp: isize,
    /// The height and width of one full map square in pixels.
    pub dim: u32,
}

impl RenderConfig {
    /// The quick preset: renders only the lowest zoom levels.
    pub fn fast() -> (r: RenderConfig)
        ensures
            r.map_id == -1,
            r.scale == 4,
            r.tile_size == 16,
            r.interp == 5,
            r.dim == 1024,
            r.initial_zoom == 2,
    {
        RenderConfig {
            map_id: -1,
            scale: 4,
            tile_size: 16,
            interp: 5,
            dim: 1024,
            initial_zoom: 2,
        }
    }

    /// The full preset: renders every zoom level.
    pub fn detailed() -> (r: RenderConfig)
        ensures
            r.map_id == -1,
            r.scale == 4,
            r.tile_size == 16,
            r.interp == 5,
            r.dim == 1024,
            r.initial_zoom == 4,
    {
        RenderConfig {
            map_id: -1,
            scale: 4,
            tile_size: 16,
            interp: 5,
            dim: 1024,
            initial_zoom: 4,
        }
    }
}

} // verus!
