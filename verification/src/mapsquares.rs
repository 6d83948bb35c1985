//! Map squares: adapters over index iteration for the map-square grid,
//! where the archive id of grid position `(i, j)` is `i + 128 * j`.

use crate::arc::Archive;
use crate::error::CacheError;
use crate::index::{group_fetchable, grouped_ok, CacheIndex, GroupMapSquare, Initial, IntoIter, IntoIterGrouped};
use vstd::prelude::*;

verus! {

/// The archives of the map-square grid, looked up by grid position.
pub struct MapSquares {
    /// The handle squares are fetched through.
    pub index: CacheIndex<Initial>,
}

impl MapSquares {
    /// Wraps a handle over the maps index.
    pub fn new(index: CacheIndex<Initial>) -> (r: MapSquares)
        requires
            index.wf(),
        ensures
            r.index == index,
    {
        MapSquares { index }
    }

    /// Fetches the archive of the square at `(i, j)`, or nothing when the
    /// catalog has no such square or its payload does not decode.
    pub fn get(&self, i: u8, j: u8) -> (r: Option<Archive>)
        requires
            self.index.wf(),
            i < 128,
            j < 128,
        ensures
            !self.index.metadatas.spec_contains((i + 128 * j) as u32) ==> r is None,
            r matches Some(a) ==> self.index.metadatas.spec_contains((i + 128 * j) as u32)
                && a.archive_id == i + 128 * j && a.index_id == self.index.index_id
                && self.index.spec_fetch((i + 128 * j) as u32) == Some(
                a.files@.map_values(|f: (u32, Vec<u8>)| (f.0, f.1@)),
            ),
            self.index.spec_fetchable_plain((i + 128 * j) as u32) ==> r is Some,
    {
        let target: u32 = (i as u32) + 128 * (j as u32);
        match self.index.archive(target) {
            Ok(a) => Some(a),
            Err(_) => None,
        }
    }
}

/// Iterates over the archives of all map squares, ascending by id.
pub struct MapSquareIterator {
    /// The underlying archive iterator.
    pub inner: IntoIter,
}

impl MapSquareIterator {
    /// Begins iteration over every square of the catalog.
    pub fn new(index: CacheIndex<Initial>) -> (r: MapSquareIterator)
        requires
            index.wf(),
        ensures
            r.inner.wf(),
            r.inner.feed@ == index.metadatas.key_seq(),
            r.inner.pos == 0,
            r.inner.index.metadatas == index.metadatas,
    {
        MapSquareIterator { inner: index.into_iter() }
    }

    /// Fetches the next square's archive, or nothing when done.
    pub fn next(&mut self) -> (r: Option<Result<Archive, CacheError>>)
        requires
            old(self).inner.wf(),
        ensures
            final(self).inner.wf(),
            final(self).inner.index == old(self).inner.index,
            final(self).inner.feed == old(self).inner.feed,
            old(self).inner.pos < old(self).inner.feed@.len() ==> (r matches Some(res)
                && final(self).inner.pos == old(self).inner.pos + 1 && old(self).inner.index.spec_archive_result(
                old(self).inner.feed@[old(self).inner.pos as int],
                res,
            )),
            old(self).inner.pos >= old(self).inner.feed@.len() ==> r is None,
    {
        self.inner.next()
    }

    /// How many squares remain, as an exact lower and upper bound.
    pub fn size_hint(&self) -> (r: (usize, Option<usize>))
        requires
            self.inner.wf(),
        ensures
            r.0 == self.inner.feed@.len() - self.inner.pos,
            r.1 == Some(r.0),
    {
        self.inner.size_hint()
    }
}

/// Iterates over grouped map squares: each yielded item is a core square
/// with the archives of its clamped neighborhood.
pub struct GroupMapSquareIterator {
    /// The underlying grouped iterator.
    pub inner: IntoIterGrouped,
}

impl GroupMapSquareIterator {
    /// Begins grouped iteration over every square of the catalog, with the
    /// given inclusive offset ranges.
    pub fn new(index: CacheIndex<Initial>, dx_lo: i32, dx_hi: i32, dy_lo: i32, dy_hi: i32) -> (r:
        GroupMapSquareIterator)
        requires
            index.wf(),
        ensures
            r.inner.wf(),
            r.inner.feed@ == index.metadatas.key_seq(),
            r.inner.pos == 0,
            r.inner.index.metadatas == index.metadatas,
            r.inner.dx_lo == dx_lo && r.inner.dx_hi == dx_hi && r.inner.dy_lo == dy_lo
                && r.inner.dy_hi == dy_hi,
    {
        GroupMapSquareIterator { inner: index.grouped(dx_lo, dx_hi, dy_lo, dy_hi) }
    }

    /// Begins grouped iteration limited to the squares at `coordinates`, in
    /// that order. Every coordinate must name a square of the catalog.
    pub fn new_only(
        index: CacheIndex<Initial>,
        dx_lo: i32,
        dx_hi: i32,
        dy_lo: i32,
        dy_hi: i32,
        coordinates: Vec<(u8, u8)>,
    ) -> (r: GroupMapSquareIterator)
        requires
            index.wf(),
            forall|k: int|
                0 <= k < coordinates@.len() ==> (#[trigger] coordinates@[k]).0 < 128
                    && coordinates@[k].1 < 128 && index.metadatas.spec_contains(
                    (coordinates@[k].0 + 128 * coordinates@[k].1) as u32,
                ),
        ensures
            r.inner.wf(),
            r.inner.feed@ == coordinates@.map_values(
                |c: (u8, u8)| (c.0 + 128 * c.1) as u32,
            ),
            r.inner.pos == 0,
            r.inner.index.metadatas == index.metadatas,
            r.inner.dx_lo == dx_lo && r.inner.dx_hi == dx_hi && r.inner.dy_lo == dy_lo
                && r.inner.dy_hi == dy_hi,
    {
        let ghost ids_spec = coordinates@.map_values(|c: (u8, u8)| (c.0 + 128 * c.1) as u32);
        let mut archive_ids: Vec<u32> = Vec::new();
        let n = coordinates.len();
        let mut k: usize = 0;
        while k < n
            invariant
                n == coordinates@.len(),
                0 <= k <= n,
                ids_spec == coordinates@.map_values(|c: (u8, u8)| (c.0 + 128 * c.1) as u32),
                archive_ids@ == ids_spec.take(k as int),
                forall|t: int|
                    0 <= t < coordinates@.len() ==> (#[trigger] coordinates@[t]).0 < 128
                        && coordinates@[t].1 < 128 && index.metadatas.spec_contains(
                        (coordinates@[t].0 + 128 * coordinates@[t].1) as u32,
                    ),
            decreases n - k,
        {
            let (i, j) = coordinates[k];
            archive_ids.push((i as u32) + 128 * (j as u32));
            k = k + 1;
            proof {
                assert(archive_ids@ =~= ids_spec.take(k as int));
            }
        }
        proof {
            assert(archive_ids@ =~= ids_spec);
            assert forall|t: int|
                0 <= t < archive_ids@.len() implies index.metadatas.spec_contains(
                #[trigger] archive_ids@[t],
            ) by {
                assert(archive_ids@[t] == (coordinates@[t].0 + 128 * coordinates@[t].1) as u32);
            }
        }
        let truncated = index.retain(archive_ids);
        GroupMapSquareIterator { inner: truncated.grouped(dx_lo, dx_hi, dy_lo, dy_hi) }
    }

    /// Collects the next core square's group, or nothing when done.
    pub fn next(&mut self) -> (r: Option<Result<GroupMapSquare, CacheError>>)
        requires
            old(self).inner.wf(),
        ensures
            final(self).inner.wf(),
            final(self).inner.index == old(self).inner.index,
            final(self).inner.feed == old(self).inner.feed,
            old(self).inner.pos < old(self).inner.feed@.len() ==> (r matches Some(res)
                && final(self).inner.pos == old(self).inner.pos + 1 && ({
                let c = old(self).inner.feed@[old(self).inner.pos as int] as int;
                &&& (res matches Ok(g) ==> g.core_i == c % 128 && g.core_j == (c / 128) % 128
                    && grouped_ok(
                    old(self).inner.index,
                    g.core_i as int,
                    g.core_j as int,
                    old(self).inner.dx_lo as int,
                    old(self).inner.dx_hi as int,
                    old(self).inner.dy_lo as int,
                    old(self).inner.dy_hi as int,
                    g.members@,
                ))
                &&& (group_fetchable(
                    old(self).inner.index,
                    c % 128,
                    (c / 128) % 128,
                    old(self).inner.dx_lo as int,
                    old(self).inner.dx_hi as int,
                    old(self).inner.dy_lo as int,
                    old(self).inner.dy_hi as int,
                ) ==> res is Ok)
            })),
            old(self).inner.pos >= old(self).inner.feed@.len() ==> r is None,
    {
        self.inner.next()
    }

    /// How many groups remain, as an exact lower and upper bound.
    pub fn size_hint(&self) -> (r: (usize, Option<usize>))
        requires
            self.inner.wf(),
        ensures
            r.0 == self.inner.feed@.len() - self.inner.pos,
            r.1 == Some(r.0),
    {
        self.inner.size_hint()
    }
}

} // verus!
