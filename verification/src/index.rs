//! The stateful handle over one index: parsed catalog metadata over an
//! in-memory store of raw archive payloads, with lookup, retention and
//! (grouped) iteration. The caller reads the store from disk and hands its
//! rows over as plain values.

use crate::arc::Archive;
use crate::arc::spec_assemble;
use crate::decoder::{decompress, is_zlb, spec_decompressed, spec_len_field, spec_plain_envelope};
use crate::error::CacheError;
use crate::meta::{IndexMetadata, Metadata};
use crate::xtea::Xtea;
use vstd::prelude::*;

verus! {

/// Initial state: iteration will visit every archive of the catalog.
pub struct Initial {}

/// Truncated state: iteration will visit an explicit feed of archive ids.
pub struct Truncated {
    /// The archive ids to visit, in order.
    pub feed: Vec<u32>,
}

/// The states a [`CacheIndex`] can be in.
pub trait IndexState {

}

impl IndexState for Initial {

}

impl IndexState for Truncated {

}

/// A handle over one index: its id, its parsed catalog, the raw store rows
/// keyed by archive id, and the optional keyring for encrypted payloads.
pub struct CacheIndex<S: IndexState> {
    /// The id of this index.
    pub index_id: u32,
    /// The parsed catalog.
    pub metadatas: IndexMetadata,
    /// The raw (still compressed) payload of each archive, keyed by id.
    pub store: Vec<(u32, Vec<u8>)>,
    /// Keys for encrypted payloads, keyed by archive id.
    pub xteas: Option<Vec<(u32, Xtea)>>,
    /// The iteration state.
    pub state: S,
}

/// The first key registered for this archive id, if any.
pub open spec fn spec_key_lookup(keys: Seq<(u32, Xtea)>, archive_id: u32) -> Option<Xtea>
    decreases keys.len(),
{
    if keys.len() == 0 {
        None
    } else if keys[0].0 == archive_id {
        Some(keys[0].1)
    } else {
        spec_key_lookup(keys.skip(1), archive_id)
    }
}

/// The cipher key a keyring holds for this archive id, if any.
pub open spec fn spec_key_for(xteas: Option<Vec<(u32, Xtea)>>, archive_id: u32) -> Option<Xtea> {
    match xteas {
        None => None,
        Some(keys) => spec_key_lookup(keys@, archive_id),
    }
}

/// The first store row with this key, if any.
pub open spec fn spec_store_get(store: Seq<(u32, Vec<u8>)>, key: u32) -> Option<Vec<u8>>
    decreases store.len(),
{
    if store.len() == 0 {
        None
    } else if store[0].0 == key {
        Some(store[0].1)
    } else {
        spec_store_get(store.skip(1), key)
    }
}

impl<S: IndexState> CacheIndex<S> {
    /// The catalog is ordered and every entry's child list matches its
    /// declared count.
    pub open spec fn wf(&self) -> bool {
        &&& self.metadatas.wf()
        &&& forall|i: int|
            0 <= i < self.metadatas.entries@.len() ==> (
            #[trigger] self.metadatas.entries@[i]).child_indices@.len()
                == self.metadatas.entries@[i].child_count
    }

    /// The archive this handle fetches for `archive_id`, as a function of
    /// the handle's plain values: the catalog entry's child ids applied to
    /// the decompressed store row, under the registered key.
    pub open spec fn spec_fetch(&self, archive_id: u32) -> Option<Seq<(u32, Seq<u8>)>> {
        match self.metadatas.spec_get(archive_id) {
            None => None,
            Some(m) => match spec_store_get(self.store@, archive_id) {
                None => None,
                Some(row) => match spec_decompressed(
                    row@,
                    spec_key_for(self.xteas, archive_id),
                ) {
                    None => None,
                    Some(data) => spec_assemble(m.child_indices@, data),
                },
            },
        }
    }

    /// A fetch that no outside call decides: the catalog has the id, the
    /// store row is a well-framed uncompressed envelope, and its payload
    /// splits cleanly. Such a fetch is owed success.
    pub open spec fn spec_fetchable_plain(&self, archive_id: u32) -> bool {
        &&& self.metadatas.spec_contains(archive_id)
        &&& (spec_store_get(self.store@, archive_id) matches Some(row) && spec_plain_envelope(
            row@,
        ))
        &&& self.spec_fetch(archive_id) is Some
    }

    /// What [`CacheIndex::archive`] promises of its result: the not-found
    /// error exactly when the catalog lacks the id; the missing-file error
    /// exactly when the catalog has it but the store holds no row; a
    /// successful fetch carries exactly [`CacheIndex::spec_fetch`]; and a
    /// fetch that no outside call decides succeeds.
    pub open spec fn spec_archive_result(&self, archive_id: u32, r: Result<
        Archive,
        CacheError,
    >) -> bool {
        &&& (r == Err::<Archive, CacheError>(
            CacheError::ArchiveNotFoundError(self.index_id, archive_id),
        ) <==> !self.metadatas.spec_contains(archive_id))
        &&& ((self.metadatas.spec_contains(archive_id) && spec_store_get(
            self.store@,
            archive_id,
        ) is None) <==> (r matches Err(e) && e is FileMissingError))
        &&& (r matches Ok(a) ==> self.metadatas.spec_contains(archive_id) && a.index_id
            == self.index_id && a.archive_id == archive_id && (self.metadatas.spec_get(archive_id)
            matches Some(m) && a.files@.len() == m.child_indices@.len() && (forall|k: int|
            0 <= k < a.files@.len() ==> (#[trigger] a.files@[k]).0 == m.child_indices@[k]))
            && self.spec_fetch(archive_id) == Some(
            a.files@.map_values(|f: (u32, Vec<u8>)| (f.0, f.1@)),
        ))
        &&& (self.spec_fetchable_plain(archive_id) ==> r is Ok)
        &&& (r matches Err(e) ==> (e matches CacheError::ArchiveNotFoundError(a, b) ==> a
            == self.index_id && b == archive_id))
        &&& ((self.metadatas.spec_contains(archive_id) && spec_store_get(
            self.store@,
            archive_id,
        ) is Some) ==> match r {
            Ok(_) => true,
            Err(e) => e is Decode || e is Read,
        })
    }

    /// The index id of this handle.
    pub fn index_id(&self) -> (r: u32)
        ensures
            r == self.index_id,
    {
        self.index_id
    }

    /// A view over the parsed catalog.
    pub fn metadatas(&self) -> (r: &IndexMetadata)
        ensures
            r == &self.metadatas,
    {
        &self.metadatas
    }

    /// The raw store row for this archive id, if the store has one.
    fn store_get(&self, key: u32) -> (r: Option<&Vec<u8>>)
        ensures
            match r {
                Some(b) => spec_store_get(self.store@, key) == Some(*b),
                None => spec_store_get(self.store@, key) is None,
            },
    {
        let n = self.store.len();
        let mut i: usize = 0;
        proof {
            assert(self.store@.skip(0int) =~= self.store@);
        }
        while i < n
            invariant
                n == self.store@.len(),
                0 <= i <= n,
                spec_store_get(self.store@, key) == spec_store_get(
                    self.store@.skip(i as int),
                    key,
                ),
            decreases n - i,
        {
            let ghost pre = self.store@.skip(i as int);
            if self.store[i].0 == key {
                return Some(&self.store[i].1);
            }
            i = i + 1;
            proof {
                assert(pre.skip(1) =~= self.store@.skip(i as int));
            }
        }
        None
    }

    /// The cipher key registered for this archive id, if any.
    fn key_for(&self, archive_id: u32) -> (r: Option<Xtea>)
        ensures
            r == spec_key_for(self.xteas, archive_id),
    {
        match &self.xteas {
            None => None,
            Some(keys) => {
                let n = keys.len();
                let mut i: usize = 0;
                proof {
                    assert(self.xteas == Some(*keys));
                    assert(keys@.skip(0int) =~= keys@);
                }
                while i < n
                    invariant
                        self.xteas == Some(*keys),
                        n == keys@.len(),
                        0 <= i <= n,
                        spec_key_lookup(keys@, archive_id) == spec_key_lookup(
                            keys@.skip(i as int),
                            archive_id,
                        ),
                    decreases n - i,
                {
                    let ghost pre = keys@.skip(i as int);
                    proof {
                        assert(pre[0] == keys@[i as int]);
                    }
                    if keys[i].0 == archive_id {
                        return Some(keys[i].1);
                    }
                    i = i + 1;
                    proof {
                        assert(pre.skip(1) =~= keys@.skip(i as int));
                    }
                }
                None
            },
        }
    }

    /// Fetches one archive: looks the id up in the catalog, reads the raw
    /// payload from the store, decompresses it (decrypting when a key is
    /// registered), and splits it into child files. An id absent from the
    /// catalog is the not-found error; a catalogued id whose store row is
    /// missing is the missing-file error; decompression and splitting
    /// failures come back wrapped.
    pub fn archive(&self, archive_id: u32) -> (r: Result<Archive, CacheError>)
        requires
            self.wf(),
        ensures
            self.spec_archive_result(archive_id, r),
    {
        let metadata = match self.metadatas.get(archive_id) {
            Some(m) => m,
            None => {
                return Err(CacheError::ArchiveNotFoundError(self.index_id, archive_id));
            },
        };
        let raw = match self.store_get(archive_id) {
            Some(b) => vstd::slice::slice_to_vec(b.as_slice()),
            None => {
                return Err(
                    CacheError::FileMissingError(String::from_str("store row missing")),
                );
            },
        };
        let key = self.key_for(archive_id);
        let data = match decompress(raw, metadata.size(), key) {
            Ok(d) => d,
            Err(e) => {
                return Err(CacheError::Decode(e));
            },
        };
        proof {
            let i = choose|i: int|
                0 <= i < self.metadatas.entries@.len() && self.metadatas.entries@[i].archive_id
                    == archive_id;
            assert(self.metadatas.entries@[i].child_indices@.len()
                == self.metadatas.entries@[i].child_count);
        }
        match Archive::deserialize(metadata, data) {
            Ok(a) => {
                let a = Archive {
                    index_id: self.index_id,
                    archive_id,
                    files: a.take_files(),
                };
                Ok(a)
            },
            Err(e) => Err(CacheError::Read(e)),
        }
    }
}

impl CacheIndex<Initial> {
    /// Builds a handle from plain values: the raw catalog blob as stored,
    /// the raw store rows, and the optional keyring. The catalog blob is
    /// decompressed and parsed; its failures come back wrapped.
    pub fn from_parts(
        index_id: u32,
        raw_catalog: Vec<u8>,
        store: Vec<(u32, Vec<u8>)>,
        xteas: Option<Vec<(u32, Xtea)>>,
    ) -> (r: Result<CacheIndex<Initial>, CacheError>)
        ensures
            r matches Ok(ci) ==> ci.wf() && ci.index_id == index_id && ci.store == store
                && ci.xteas == xteas,
            r matches Ok(ci) ==> (spec_decompressed(raw_catalog@, None) matches Some(d)
                && crate::meta::spec_catalog(d, index_id) == Some(
                ci.metadatas.entries@.map_values(|m: Metadata| m@),
            )),
            r matches Err(e) ==> (e is Decode || e is Read),
            ({
                let s = raw_catalog@;
                (s.len() >= 3 && !is_zlb(s) && s[0] == 0 && s.len() >= spec_len_field(s) + 7)
                    ==> ({
                    let payload = s.subrange(5, 5 + spec_len_field(s));
                    match r {
                        Ok(ci) => crate::meta::spec_catalog(payload, index_id) == Some(
                            ci.metadatas.entries@.map_values(|m: Metadata| m@),
                        ),
                        Err(_) => crate::meta::spec_catalog(payload, index_id) is None,
                    }
                })
            }),
    {
        let catalog = match decompress(raw_catalog, None, None) {
            Ok(d) => d,
            Err(e) => {
                return Err(CacheError::Decode(e));
            },
        };
        let buffer = crate::buf::Buffer::new(catalog);
        let metadatas = match IndexMetadata::deserialize(index_id, buffer) {
            Ok(m) => m,
            Err(e) => {
                return Err(CacheError::Read(e));
            },
        };
        Ok(CacheIndex { index_id, metadatas, store, xteas, state: Initial {  } })
    }

    /// Retains only the archives in `ids`, advancing to the truncated
    /// state; iteration will visit exactly `ids`, in this order. Every id
    /// must be in the catalog.
    pub fn retain(self, ids: Vec<u32>) -> (r: CacheIndex<Truncated>)
        requires
            forall|i: int|
                0 <= i < ids@.len() ==> self.metadatas.spec_contains(#[trigger] ids@[i]),
        ensures
            r.state.feed == ids,
            r.index_id == self.index_id,
            r.metadatas == self.metadatas,
            r.store == self.store,
            r.xteas == self.xteas,
    {
        let CacheIndex { index_id, metadatas, store, xteas, state: _ } = self;
        CacheIndex { index_id, metadatas, store, xteas, state: Truncated { feed: ids } }
    }

    /// Begins iteration over every archive of the catalog, ascending by id.
    pub fn into_iter(self) -> (r: IntoIter)
        requires
            self.wf(),
        ensures
            r.wf(),
            r.index.index_id == self.index_id,
            r.index.metadatas == self.metadatas,
            r.index.store == self.store,
            r.index.xteas == self.xteas,
            r.feed@ == self.metadatas.key_seq(),
            r.pos == 0,
    {
        let feed = self.metadatas.keys();
        IntoIter { index: self, feed, pos: 0 }
    }
}

impl CacheIndex<Truncated> {
    /// Begins iteration over the retained feed, in its stored order.
    pub fn into_iter(self) -> (r: IntoIter)
        requires
            self.wf(),
        ensures
            r.wf(),
            r.index.index_id == self.index_id,
            r.index.metadatas == self.metadatas,
            r.index.store == self.store,
            r.index.xteas == self.xteas,
            r.feed == self.state.feed,
            r.pos == 0,
    {
        let CacheIndex { index_id, metadatas, store, xteas, state } = self;
        let index = CacheIndex { index_id, metadatas, store, xteas, state: Initial {  } };
        IntoIter { index, feed: state.feed, pos: 0 }
    }
}

/// An iterator over archives: visits the feed in order, fetching each id
/// through the contained handle.
pub struct IntoIter {
    /// The handle archives are fetched through.
    pub index: CacheIndex<Initial>,
    /// The archive ids to visit.
    pub feed: Vec<u32>,
    /// How many have been visited.
    pub pos: usize,
}

impl IntoIter {
    /// The handle is well-formed and the cursor is within the feed.
    pub open spec fn wf(&self) -> bool {
        &&& self.index.wf()
        &&& self.pos <= self.feed@.len()
    }

    /// A view over the catalog of the contained handle.
    pub fn metadatas(&self) -> (r: &IndexMetadata)
        ensures
            r == &self.index.metadatas,
    {
        &self.index.metadatas
    }

    /// Fetches the next archive of the feed, or nothing when the feed is
    /// exhausted.
    pub fn next(&mut self) -> (r: Option<Result<Archive, CacheError>>)
        requires
            old(self).wf(),
        ensures
            final(self).wf(),
            final(self).index == old(self).index,
            final(self).feed == old(self).feed,
            old(self).pos < old(self).feed@.len() ==> (r matches Some(res) && final(self).pos
                == old(self).pos + 1 && old(self).index.spec_archive_result(
                old(self).feed@[old(self).pos as int],
                res,
            )),
            old(self).pos >= old(self).feed@.len() ==> r is None && final(self).pos == old(
                self,
            ).pos,
    {
        if self.pos < self.feed.len() {
            let id = self.feed[self.pos];
            self.pos = self.pos + 1;
            Some(self.index.archive(id))
        } else {
            None
        }
    }

    /// How many archives remain, as an exact lower and upper bound.
    pub fn size_hint(&self) -> (r: (usize, Option<usize>))
        requires
            self.wf(),
        ensures
            r.0 == self.feed@.len() - self.pos,
            r.1 == Some(r.0),
    {
        let left = self.feed.len() - self.pos;
        (left, Some(left))
    }
}

/// An offset clamped into the map-square grid's axis range.
pub open spec fn clamp7(x: int) -> int {
    if x < 0 {
        0
    } else if x > 127 {
        127
    } else {
        x
    }
}

/// The archive id of the map square at grid position `(i, j)`.
pub open spec fn square_id(i: int, j: int) -> int {
    i + 128 * j
}

/// Some member of the group sits at grid position `(i, j)`.
pub open spec fn has_coord(members: Seq<(u8, u8, Archive)>, i: int, j: int) -> bool {
    exists|m: int|
        0 <= m < members.len() && (#[trigger] members[m]).0 == i && members[m].1 == j
}

/// A group of map squares around a core: every member sits at a clamped
/// offset of the core, exists in the catalog, and carries the archive of
/// its own square; every existing clamped offset is represented; and no
/// grid position repeats.
pub open spec fn grouped_ok<S: IndexState>(
    ci: CacheIndex<S>,
    core_i: int,
    core_j: int,
    dx_lo: int,
    dx_hi: int,
    dy_lo: int,
    dy_hi: int,
    members: Seq<(u8, u8, Archive)>,
) -> bool {
    &&& forall|m: int|
        0 <= m < members.len() ==> {
            let mi = (#[trigger] members[m]).0 as int;
            let mj = members[m].1 as int;
            &&& (exists|di: int, dj: int|
                dx_lo <= di <= dx_hi && dy_lo <= dj <= dy_hi && mi == #[trigger] clamp7(
                    core_i + di,
                ) && mj == #[trigger] clamp7(core_j + dj))
            &&& ci.metadatas.spec_contains(square_id(mi, mj) as u32)
            &&& members[m].2.archive_id == square_id(mi, mj)
            &&& members[m].2.index_id == ci.index_id
            &&& ci.spec_fetch(square_id(mi, mj) as u32) == Some(
                members[m].2.files@.map_values(|f: (u32, Vec<u8>)| (f.0, f.1@)),
            )
        }
    &&& forall|di: int, dj: int|
        dx_lo <= di <= dx_hi && dy_lo <= dj <= dy_hi && #[trigger] ci.metadatas.spec_contains(
            square_id(clamp7(core_i + di), clamp7(core_j + dj)) as u32,
        ) ==> has_coord(members, clamp7(core_i + di), clamp7(core_j + dj))
    &&& forall|m1: int, m2: int|
        0 <= m1 < m2 < members.len() ==> ((#[trigger] members[m1]).0 != (
        #[trigger] members[m2]).0 || members[m1].1 != members[m2].1)
}

/// Every square of the clamped neighborhood that the catalog has is also
/// cleanly fetchable: no outside call decides its fetch. Such a group
/// collection is owed success.
pub open spec fn group_fetchable<S: IndexState>(
    ci: CacheIndex<S>,
    core_i: int,
    core_j: int,
    dx_lo: int,
    dx_hi: int,
    dy_lo: int,
    dy_hi: int,
) -> bool {
    forall|di: int, dj: int|
        dx_lo <= di <= dx_hi && dy_lo <= dj <= dy_hi && #[trigger] ci.metadatas.spec_contains(
            square_id(clamp7(core_i + di), clamp7(core_j + dj)) as u32,
        ) ==> ci.spec_fetchable_plain(square_id(clamp7(core_i + di), clamp7(core_j + dj)) as u32)
}

/// Whether some collected member already sits at `(i, j)`.
fn contains_coord(members: &Vec<(u8, u8, Archive)>, i: u8, j: u8) -> (r: bool)
    ensures
        r == has_coord(members@, i as int, j as int),
{
    let n = members.len();
    let mut m: usize = 0;
    while m < n
        invariant
            n == members@.len(),
            0 <= m <= n,
            forall|t: int|
                0 <= t < m ==> !((#[trigger] members@[t]).0 == i && members@[t].1 == j),
        decreases n - m,
    {
        if members[m].0 == i && members[m].1 == j {
            return true;
        }
        m = m + 1;
    }
    false
}

impl<S: IndexState> CacheIndex<S> {
    /// Collects the 3-by-3-style neighborhood of a core square: for every
    /// offset in the given inclusive ranges, the target position is clamped
    /// into the grid, and its archive is fetched if the catalog has it.
    /// Every existing neighbor must fetch cleanly, else its error comes
    /// back.
    pub fn collect_group(
        &self,
        core_i: u8,
        core_j: u8,
        dx_lo: i32,
        dx_hi: i32,
        dy_lo: i32,
        dy_hi: i32,
    ) -> (r: Result<Vec<(u8, u8, Archive)>, CacheError>)
        requires
            self.wf(),
            core_i < 128,
            core_j < 128,
        ensures
            r matches Ok(members) ==> grouped_ok(
                *self,
                core_i as int,
                core_j as int,
                dx_lo as int,
                dx_hi as int,
                dy_lo as int,
                dy_hi as int,
                members@,
            ),
            group_fetchable(
                *self,
                core_i as int,
                core_j as int,
                dx_lo as int,
                dx_hi as int,
                dy_lo as int,
                dy_hi as int,
            ) ==> r is Ok,
    {
        let mut members: Vec<(u8, u8, Archive)> = Vec::new();
        let mut di: i64 = dx_lo as i64;
        while di <= dx_hi as i64
            invariant
                self.wf(),
                core_i < 128,
                core_j < 128,
                dx_lo as i64 <= di,
                forall|m: int|
                    0 <= m < members@.len() ==> {
                        let mi = (#[trigger] members@[m]).0 as int;
                        let mj = members@[m].1 as int;
                        &&& (exists|di2: int, dj2: int|
                            dx_lo <= di2 <= dx_hi && dy_lo <= dj2 <= dy_hi && mi
                                == #[trigger] clamp7(core_i + di2) && mj == #[trigger] clamp7(
                                core_j + dj2,
                            ))
                        &&& self.metadatas.spec_contains(square_id(mi, mj) as u32)
                        &&& members@[m].2.archive_id == square_id(mi, mj)
                        &&& members@[m].2.index_id == self.index_id
                        &&& self.spec_fetch(square_id(mi, mj) as u32) == Some(
                            members@[m].2.files@.map_values(|f: (u32, Vec<u8>)| (f.0, f.1@)),
                        )
                    },
                forall|di2: int, dj2: int|
                    dx_lo <= di2 < di && dy_lo <= dj2 <= dy_hi
                        && #[trigger] self.metadatas.spec_contains(
                        square_id(clamp7(core_i + di2), clamp7(core_j + dj2)) as u32,
                    ) ==> has_coord(members@, clamp7(core_i + di2), clamp7(core_j + dj2)),
                forall|m1: int, m2: int|
                    0 <= m1 < m2 < members@.len() ==> ((#[trigger] members@[m1]).0 != (
                    #[trigger] members@[m2]).0 || members@[m1].1 != members@[m2].1),
            decreases dx_hi as i64 + 1 - di,
        {
            let mut dj: i64 = dy_lo as i64;
            while dj <= dy_hi as i64
                invariant
                    self.wf(),
                    core_i < 128,
                    core_j < 128,
                    dx_lo as i64 <= di && di <= dx_hi as i64,
                    dy_lo as i64 <= dj,
                    forall|m: int|
                        0 <= m < members@.len() ==> {
                            let mi = (#[trigger] members@[m]).0 as int;
                            let mj = members@[m].1 as int;
                            &&& (exists|di2: int, dj2: int|
                                dx_lo <= di2 <= dx_hi && dy_lo <= dj2 <= dy_hi && mi
                                    == #[trigger] clamp7(core_i + di2) && mj == #[trigger] clamp7(
                                    core_j + dj2,
                                ))
                            &&& self.metadatas.spec_contains(square_id(mi, mj) as u32)
                            &&& members@[m].2.archive_id == square_id(mi, mj)
                            &&& members@[m].2.index_id == self.index_id
                            &&& self.spec_fetch(square_id(mi, mj) as u32) == Some(
                                members@[m].2.files@.map_values(|f: (u32, Vec<u8>)| (f.0, f.1@)),
                            )
                        },
                    forall|di2: int, dj2: int|
                        dx_lo <= di2 < di && dy_lo <= dj2 <= dy_hi
                            && #[trigger] self.metadatas.spec_contains(
                            square_id(clamp7(core_i + di2), clamp7(core_j + dj2)) as u32,
                        ) ==> has_coord(members@, clamp7(core_i + di2), clamp7(core_j + dj2)),
                    forall|dj2: int|
                        dy_lo <= dj2 < dj && #[trigger] self.metadatas.spec_contains(
                            square_id(clamp7(core_i + di), clamp7(core_j + dj2)) as u32,
                        ) ==> has_coord(members@, clamp7(core_i + di), clamp7(core_j + dj2)),
                    forall|m1: int, m2: int|
                        0 <= m1 < m2 < members@.len() ==> ((#[trigger] members@[m1]).0 != (
                        #[trigger] members@[m2]).0 || members@[m1].1 != members@[m2].1),
                decreases dy_hi as i64 + 1 - dj,
            {
                let ti_raw = core_i as i64 + di;
                let ti: u8 = if ti_raw < 0 {
                    0
                } else if ti_raw > 127 {
                    127
                } else {
                    ti_raw as u8
                };
                let tj_raw = core_j as i64 + dj;
                let tj: u8 = if tj_raw < 0 {
                    0
                } else if tj_raw > 127 {
                    127
                } else {
                    tj_raw as u8
                };
                proof {
                    assert(ti as int == clamp7(core_i + di));
                    assert(tj as int == clamp7(core_j + dj));
                }
                let target: u32 = (ti as u32) + 128 * (tj as u32);
                let ghost members0 = members@;
                if !contains_coord(&members, ti, tj) {
                    match self.metadatas.get(target) {
                        Some(_) => {
                            match self.archive(target) {
                                Ok(a) => {
                                    members.push((ti, tj, a));
                                },
                                Err(e) => {
                                    proof {
                                        assert(self.metadatas.spec_contains(
                                            square_id(
                                                clamp7(core_i + di as int),
                                                clamp7(core_j + dj as int),
                                            ) as u32,
                                        ));
                                    }
                                    return Err(e);
                                },
                            }
                        },
                        None => {
                        },
                    }
                }
                dj = dj + 1;
                proof {
                    assert forall|i2: int, j2: int|
                        has_coord(members0, i2, j2) implies has_coord(members@, i2, j2) by {
                        let m = choose|m: int|
                            0 <= m < members0.len() && (#[trigger] members0[m]).0 == i2
                                && members0[m].1 == j2;
                        assert(members@[m].0 == i2 && members@[m].1 == j2);
                    }
                    if members@.len() > members0.len() {
                        assert(members@[members0.len() as int].0 == ti);
                    }
                }
            }
            di = di + 1;
        }
        Ok(members)
    }
}

/// A core map square together with the archives of its clamped
/// neighborhood.
pub struct GroupMapSquare {
    /// The horizontal grid position of the core.
    pub core_i: u8,
    /// The vertical grid position of the core.
    pub core_j: u8,
    /// The members, as `(i, j, archive)`, each grid position at most once.
    pub members: Vec<(u8, u8, Archive)>,
}

impl GroupMapSquare {
    /// The archive id of the core square.
    pub fn core_id(&self) -> (r: u32)
        ensures
            r == self.core_i + 128 * self.core_j,
    {
        (self.core_i as u32) + 128 * (self.core_j as u32)
    }
}

/// An iterator over grouped map squares: visits the feed in order, and for
/// each core id collects the archives of its clamped neighborhood.
pub struct IntoIterGrouped {
    /// The handle archives are fetched through.
    pub index: CacheIndex<Initial>,
    /// The core archive ids to visit.
    pub feed: Vec<u32>,
    /// How many have been visited.
    pub pos: usize,
    /// The lowest horizontal offset.
    pub dx_lo: i32,
    /// The highest horizontal offset.
    pub dx_hi: i32,
    /// The lowest vertical offset.
    pub dy_lo: i32,
    /// The highest vertical offset.
    pub dy_hi: i32,
}

impl IntoIterGrouped {
    /// The handle is well-formed and the cursor is within the feed.
    pub open spec fn wf(&self) -> bool {
        &&& self.index.wf()
        &&& self.pos <= self.feed@.len()
    }

    /// Collects the group of the next core id of the feed, or nothing when
    /// the feed is exhausted. The core grid position is the id's low seven
    /// bits and next seven bits.
    pub fn next(&mut self) -> (r: Option<Result<GroupMapSquare, CacheError>>)
        requires
            old(self).wf(),
        ensures
            final(self).wf(),
            final(self).index == old(self).index,
            final(self).feed == old(self).feed,
            final(self).dx_lo == old(self).dx_lo && final(self).dx_hi == old(self).dx_hi
                && final(self).dy_lo == old(self).dy_lo && final(self).dy_hi == old(self).dy_hi,
            old(self).pos < old(self).feed@.len() ==> (r matches Some(res) && final(self).pos
                == old(self).pos + 1 && ({
                let c = old(self).feed@[old(self).pos as int] as int;
                &&& (res matches Ok(g) ==> g.core_i == c % 128 && g.core_j == (c / 128) % 128
                    && grouped_ok(
                    old(self).index,
                    g.core_i as int,
                    g.core_j as int,
                    old(self).dx_lo as int,
                    old(self).dx_hi as int,
                    old(self).dy_lo as int,
                    old(self).dy_hi as int,
                    g.members@,
                ))
                &&& (group_fetchable(
                    old(self).index,
                    c % 128,
                    (c / 128) % 128,
                    old(self).dx_lo as int,
                    old(self).dx_hi as int,
                    old(self).dy_lo as int,
                    old(self).dy_hi as int,
                ) ==> res is Ok)
            })),
            old(self).pos >= old(self).feed@.len() ==> r is None && final(self).pos == old(
                self,
            ).pos,
    {
        if self.pos < self.feed.len() {
            let c = self.feed[self.pos];
            self.pos = self.pos + 1;
            let core_i = (c % 128) as u8;
            let core_j = ((c / 128) % 128) as u8;
            match self.index.collect_group(
                core_i,
                core_j,
                self.dx_lo,
                self.dx_hi,
                self.dy_lo,
                self.dy_hi,
            ) {
                Ok(members) => Some(Ok(GroupMapSquare { core_i, core_j, members })),
                Err(e) => Some(Err(e)),
            }
        } else {
            None
        }
    }

    /// How many groups remain, as an exact lower and upper bound.
    pub fn size_hint(&self) -> (r: (usize, Option<usize>))
        requires
            self.wf(),
        ensures
            r.0 == self.feed@.len() - self.pos,
            r.1 == Some(r.0),
    {
        let left = self.feed.len() - self.pos;
        (left, Some(left))
    }
}

impl CacheIndex<Initial> {
    /// Begins grouped iteration over every archive of the catalog,
    /// ascending by id, with the given inclusive offset ranges.
    pub fn grouped(self, dx_lo: i32, dx_hi: i32, dy_lo: i32, dy_hi: i32) -> (r: IntoIterGrouped)
        requires
            self.wf(),
        ensures
            r.wf(),
            r.index.index_id == self.index_id,
            r.index.metadatas == self.metadatas,
            r.index.store == self.store,
            r.index.xteas == self.xteas,
            r.feed@ == self.metadatas.key_seq(),
            r.pos == 0,
            r.dx_lo == dx_lo && r.dx_hi == dx_hi && r.dy_lo == dy_lo && r.dy_hi == dy_hi,
    {
        let feed = self.metadatas.keys();
        IntoIterGrouped { index: self, feed, pos: 0, dx_lo, dx_hi, dy_lo, dy_hi }
    }
}

impl CacheIndex<Truncated> {
    /// Begins grouped iteration over the retained feed, in its stored
    /// order, with the given inclusive offset ranges.
    pub fn grouped(self, dx_lo: i32, dx_hi: i32, dy_lo: i32, dy_hi: i32) -> (r: IntoIterGrouped)
        requires
            self.wf(),
        ensures
            r.wf(),
            r.index.index_id == self.index_id,
            r.index.metadatas == self.metadatas,
            r.index.store == self.store,
            r.index.xteas == self.xteas,
            r.feed == self.state.feed,
            r.pos == 0,
            r.dx_lo == dx_lo && r.dx_hi == dx_hi && r.dy_lo == dy_lo && r.dy_hi == dy_hi,
    {
        let CacheIndex { index_id, metadatas, store, xteas, state } = self;
        let index = CacheIndex { index_id, metadatas, store, xteas, state: Initial {  } };
        IntoIterGrouped { index, feed: state.feed, pos: 0, dx_lo, dx_hi, dy_lo, dy_hi }
    }
}

/// Law: the keys of a well-formed catalog strictly ascend, so iteration
/// over an initial handle visits exactly the catalog's archive ids, in
/// ascending order, with no duplicates.
pub proof fn lemma_iteration_completeness(im: IndexMetadata)
    requires
        im.wf(),
    ensures
        forall|i: int, j: int|
            0 <= i < j < im.key_seq().len() ==> im.key_seq()[i] < im.key_seq()[j],
        forall|i: int| 0 <= i < im.key_seq().len() ==> im.spec_contains(#[trigger] im.key_seq()[i]),
        forall|id: u32|
            im.spec_contains(id) ==> exists|i: int|
                0 <= i < im.key_seq().len() && im.key_seq()[i] == id,
{
    assert forall|i: int| 0 <= i < im.key_seq().len() implies im.spec_contains(
        #[trigger] im.key_seq()[i],
    ) by {
        assert(im.entries@[i].archive_id == im.key_seq()[i]);
    }
    assert forall|id: u32| im.spec_contains(id) implies exists|i: int|
        0 <= i < im.key_seq().len() && im.key_seq()[i] == id by {
        let i = choose|i: int|
            0 <= i < im.entries@.len() && im.entries@[i].archive_id == id;
        assert(im.key_seq()[i] == id);
    }
}

} // verus!
