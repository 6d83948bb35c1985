//! The per-archive catalog: metadata entries parsed from an index's catalog
//! blob into an ordered mapping from archive id to entry.

use crate::buf::{as_signed_32, be_uint, spec_smart32, Buffer, ReadError};
use vstd::prelude::*;

verus! {

/// The catalog entry of one archive.
#[derive(Clone, Debug)]
pub struct Metadata {
    /// The index this entry belongs to.
    pub index_id: u32,
    /// The archive it describes; unique within an index.
    pub archive_id: u32,
    /// The hashed name, present exactly in named indexes.
    pub name: Option<i32>,
    /// The cyclic redundancy checksum of the archive.
    pub crc: i32,
    /// Seconds since epoch, or a monotonic counter.
    pub version: i32,
    /// An undocumented word, present exactly in extended indexes.
    pub unknown: Option<i32>,
    /// The stored size, present exactly in extended indexes.
    pub compressed_size: Option<u32>,
    /// The decompressed size, present exactly in extended indexes.
    pub size: Option<u32>,
    /// The 64-byte whirlpool digest, present exactly in hashed indexes.
    pub digest: Option<Vec<u8>>,
    /// How many child files the archive holds.
    pub child_count: u32,
    /// The child file ids, in declared order.
    pub child_indices: Vec<u32>,
}

impl Metadata {
    /// The index id of this entry.
    pub fn index_id(&self) -> (r: u32)
        ensures
            r == self.index_id,
    {
        self.index_id
    }

    /// The archive id of this entry.
    pub fn archive_id(&self) -> (r: u32)
        ensures
            r == self.archive_id,
    {
        self.archive_id
    }

    /// The hashed name, if the index is named.
    pub fn name(&self) -> (r: Option<i32>)
        ensures
            r == self.name,
    {
        self.name
    }

    /// The checksum of the archive.
    pub fn crc(&self) -> (r: i32)
        ensures
            r == self.crc,
    {
        self.crc
    }

    /// The version stamp of the archive.
    pub fn version(&self) -> (r: i32)
        ensures
            r == self.version,
    {
        self.version
    }

    /// The undocumented extended word.
    pub fn unknown(&self) -> (r: Option<i32>)
        ensures
            r == self.unknown,
    {
        self.unknown
    }

    /// The stored size, if the index is extended.
    pub fn compressed_size(&self) -> (r: Option<u32>)
        ensures
            r == self.compressed_size,
    {
        self.compressed_size
    }

    /// The decompressed size, if the index is extended.
    pub fn size(&self) -> (r: Option<u32>)
        ensures
            r == self.size,
    {
        self.size
    }

    /// The whirlpool digest, if the index is hashed.
    pub fn digest(&self) -> (r: &Option<Vec<u8>>)
        ensures
            r == &self.digest,
    {
        &self.digest
    }

    /// The number of child files.
    pub fn child_count(&self) -> (r: u32)
        ensures
            r == self.child_count,
    {
        self.child_count
    }

    /// The child file ids, in declared order.
    pub fn child_indices(&self) -> (r: &Vec<u32>)
        ensures
            r == &self.child_indices,
    {
        &self.child_indices
    }
}

/// The mathematical value of one catalog entry: plain values and
/// sequences in place of vectors.
pub struct MetadataView {
    /// The index this entry belongs to.
    pub index_id: u32,
    /// The archive it describes.
    pub archive_id: u32,
    /// The hashed name, present exactly in named indexes.
    pub name: Option<i32>,
    /// The checksum of the archive.
    pub crc: i32,
    /// The version stamp of the archive.
    pub version: i32,
    /// The undocumented extended word.
    pub unknown: Option<i32>,
    /// The stored size, present exactly in extended indexes.
    pub compressed_size: Option<u32>,
    /// The decompressed size, present exactly in extended indexes.
    pub size: Option<u32>,
    /// The whirlpool digest, present exactly in hashed indexes.
    pub digest: Option<Seq<u8>>,
    /// How many child files the archive holds.
    pub child_count: u32,
    /// The child file ids, in declared order.
    pub child_indices: Seq<u32>,
}

impl View for Metadata {
    type V = MetadataView;

    open spec fn view(&self) -> MetadataView {
        MetadataView {
            index_id: self.index_id,
            archive_id: self.archive_id,
            name: self.name,
            crc: self.crc,
            version: self.version,
            unknown: self.unknown,
            compressed_size: self.compressed_size,
            size: self.size,
            digest: match self.digest {
                None => None,
                Some(d) => Some(d@),
            },
            child_count: self.child_count,
            child_indices: self.child_indices@,
        }
    }
}

/// One wire id at the head of `s`: a present smart32 when the format is
/// wide, an unsigned short otherwise. An absent smart32 is malformed.
pub open spec fn spec_wire_id(s: Seq<u8>, wide: bool) -> Option<(u32, int)> {
    if wide {
        match spec_smart32(s) {
            None => None,
            Some((None, _)) => None,
            Some((Some(v), n)) => Some((v, n)),
        }
    } else {
        if s.len() < 2 {
            None
        } else {
            Some((be_uint(s, 2) as u32, 2))
        }
    }
}

/// `count` wire ids read in sequence.
pub open spec fn spec_id_block(s: Seq<u8>, wide: bool, count: nat) -> Option<(Seq<u32>, int)>
    decreases count,
{
    if count == 0 {
        Some((Seq::empty(), 0))
    } else {
        match spec_wire_id(s, wide) {
            None => None,
            Some((v, n)) => match spec_id_block(s.skip(n), wide, (count - 1) as nat) {
                None => None,
                Some((t, m)) => Some((seq![v] + t, n + m)),
            },
        }
    }
}

/// `count` big-endian signed words read in sequence.
pub open spec fn spec_i32_block(s: Seq<u8>, count: nat) -> Option<(Seq<i32>, int)> {
    if s.len() < 4 * count {
        None
    } else {
        Some(
            (Seq::new(count, |k: int| as_signed_32(be_uint(s.skip(4 * k), 4)) as i32), 4 * count as int),
        )
    }
}

/// `count` 64-byte digests read in sequence.
pub open spec fn spec_digest_block(s: Seq<u8>, count: nat) -> Option<(Seq<Seq<u8>>, int)> {
    if s.len() < 64 * count {
        None
    } else {
        Some((Seq::new(count, |k: int| s.subrange(64 * k, 64 * k + 64)), 64 * count as int))
    }
}

/// `count` pairs of big-endian unsigned words: the stored and the
/// decompressed size of each entry.
pub open spec fn spec_size_block(s: Seq<u8>, count: nat) -> Option<(Seq<u32>, Seq<u32>, int)> {
    if s.len() < 8 * count {
        None
    } else {
        Some(
            (
                Seq::new(count, |k: int| be_uint(s.skip(8 * k), 4) as u32),
                Seq::new(count, |k: int| be_uint(s.skip(8 * k + 4), 4) as u32),
                8 * count as int,
            ),
        )
    }
}

/// One delta-encoded child list per entry, each prefix-summed into
/// absolute child ids.
pub open spec fn spec_child_lists(s: Seq<u8>, wide: bool, counts: Seq<u32>) -> Option<
    (Seq<Seq<u32>>, int),
>
    decreases counts.len(),
{
    if counts.len() == 0 {
        Some((Seq::empty(), 0))
    } else {
        match spec_id_block(s, wide, counts[0] as nat) {
            None => None,
            Some((deltas, n)) => match spec_prefix_sums(deltas) {
                None => None,
                Some(ids) => match spec_child_lists(s.skip(n), wide, counts.skip(1)) {
                    None => None,
                    Some((t, m)) => Some((seq![ids] + t, n + m)),
                },
            },
        }
    }
}

/// Entries folded into the catalog front to back: an entry repeating the
/// last archive id replaces it, any other is appended.
pub open spec fn spec_insert_entries(acc: Seq<MetadataView>, entries: Seq<MetadataView>) -> Seq<
    MetadataView,
>
    decreases entries.len(),
{
    if entries.len() == 0 {
        acc
    } else {
        let e = entries[0];
        let acc2 = if acc.len() > 0 && acc.last().archive_id == e.archive_id {
            acc.update(acc.len() - 1, e)
        } else {
            acc.push(e)
        };
        spec_insert_entries(acc2, entries.skip(1))
    }
}

/// What the catalog blob parses to: the format byte, the optional
/// timestamp, the flag byte, the entry count, the prefix-summed archive
/// ids, the per-entry sections the flags call for, and the child lists;
/// nothing when any section ends too soon, an id sum leaves `u32`, or a
/// wide count is absent. Later entries win a repeated archive id.
pub open spec fn spec_catalog(s: Seq<u8>, index_id: u32) -> Option<Seq<MetadataView>> {
    if s.len() < 1 {
        None
    } else {
        let format = s[0];
        let s_a = s.skip(1);
        if format > 5 && s_a.len() < 4 {
            None
        } else {
            let s_b = if format > 5 {
                s_a.skip(4)
            } else {
                s_a
            };
            if s_b.len() < 1 {
                None
            } else {
                let flags = s_b[0];
                let named = flags & 0x1 != 0;
                let hashed = flags & 0x2 != 0;
                let extended = flags & 0x4 != 0;
                let wide = format >= 7;
                let s_c = s_b.skip(1);
                match spec_wire_id(s_c, wide) {
                    None => None,
                    Some((count, n0)) => {
                        let s0 = s_c.skip(n0);
                        match spec_id_block(s0, wide, count as nat) {
                            None => None,
                            Some((deltas, n1)) => match spec_prefix_sums(deltas) {
                                None => None,
                                Some(ids) => {
                                    let s1 = s0.skip(n1);
                                    spec_catalog_tail(
                                        s1,
                                        index_id,
                                        wide,
                                        named,
                                        hashed,
                                        extended,
                                        count as nat,
                                        ids,
                                    )
                                },
                            },
                        }
                    },
                }
            }
        }
    }
}

/// The sections after the archive ids: names, checksums, extended words
/// and digests, then the rest of the catalog.
pub open spec fn spec_catalog_tail(
    s1: Seq<u8>,
    index_id: u32,
    wide: bool,
    named: bool,
    hashed: bool,
    extended: bool,
    count: nat,
    ids: Seq<u32>,
) -> Option<Seq<MetadataView>> {
    let names_r = if named {
        spec_i32_block(s1, count)
    } else {
        Some((Seq::empty(), 0))
    };
    match names_r {
        None => None,
        Some((names, n2)) => {
            let s2 = s1.skip(n2);
            match spec_i32_block(s2, count) {
                None => None,
                Some((crcs, n3)) => {
                    let s3 = s2.skip(n3);
                    let unk_r = if extended {
                        spec_i32_block(s3, count)
                    } else {
                        Some((Seq::empty(), 0))
                    };
                    match unk_r {
                        None => None,
                        Some((unknowns, n4)) => {
                            let s4 = s3.skip(n4);
                            let dig_r = if hashed {
                                spec_digest_block(s4, count)
                            } else {
                                Some((Seq::empty(), 0))
                            };
                            match dig_r {
                                None => None,
                                Some((digests, n5)) => spec_catalog_tail2(
                                    s4.skip(n5),
                                    index_id,
                                    wide,
                                    named,
                                    hashed,
                                    extended,
                                    count,
                                    ids,
                                    names,
                                    crcs,
                                    unknowns,
                                    digests,
                                ),
                            }
                        },
                    }
                },
            }
        },
    }
}

/// The sections after the digests: sizes, versions, child counts and child
/// lists, and the assembled entries.
pub open spec fn spec_catalog_tail2(
    s5: Seq<u8>,
    index_id: u32,
    wide: bool,
    named: bool,
    hashed: bool,
    extended: bool,
    count: nat,
    ids: Seq<u32>,
    names: Seq<i32>,
    crcs: Seq<i32>,
    unknowns: Seq<i32>,
    digests: Seq<Seq<u8>>,
) -> Option<Seq<MetadataView>> {
    let size_r = if extended {
        spec_size_block(s5, count)
    } else {
        Some((Seq::empty(), Seq::empty(), 0))
    };
    match size_r {
        None => None,
        Some((compressed, sizes, n6)) => {
            let s6 = s5.skip(n6);
            match spec_i32_block(s6, count) {
                None => None,
                Some((versions, n7)) => {
                    let s7 = s6.skip(n7);
                    match spec_id_block(s7, wide, count) {
                        None => None,
                        Some((ccounts, n8)) => {
                            let s8 = s7.skip(n8);
                            match spec_child_lists(s8, wide, ccounts) {
                                None => None,
                                Some((childs, _)) => Some(
                                    spec_insert_entries(
                                        Seq::empty(),
                                        spec_zip_entries(
                                            index_id,
                                            named,
                                            hashed,
                                            extended,
                                            count,
                                            ids,
                                            names,
                                            crcs,
                                            unknowns,
                                            digests,
                                            compressed,
                                            sizes,
                                            versions,
                                            ccounts,
                                            childs,
                                        ),
                                    ),
                                ),
                            }
                        },
                    }
                },
            }
        },
    }
}

/// The parsed sections zipped into one entry per position.
pub open spec fn spec_zip_entries(
    index_id: u32,
    named: bool,
    hashed: bool,
    extended: bool,
    count: nat,
    ids: Seq<u32>,
    names: Seq<i32>,
    crcs: Seq<i32>,
    unknowns: Seq<i32>,
    digests: Seq<Seq<u8>>,
    compressed: Seq<u32>,
    sizes: Seq<u32>,
    versions: Seq<i32>,
    ccounts: Seq<u32>,
    childs: Seq<Seq<u32>>,
) -> Seq<MetadataView> {
    Seq::new(
        count,
        |k: int|
            MetadataView {
                index_id,
                archive_id: ids[k],
                name: if named {
                    Some(names[k])
                } else {
                    None
                },
                crc: crcs[k],
                version: versions[k],
                unknown: if extended {
                    Some(unknowns[k])
                } else {
                    None
                },
                compressed_size: if extended {
                    Some(compressed[k])
                } else {
                    None
                },
                size: if extended {
                    Some(sizes[k])
                } else {
                    None
                },
                digest: if hashed {
                    Some(digests[k])
                } else {
                    None
                },
                child_count: ccounts[k],
                child_indices: childs[k],
            },
    )
}

/// The running sums of a delta sequence, each delta added to the sum so
/// far, starting from `prev`; nothing when a sum leaves `u32`.
pub open spec fn spec_sums_from(d: Seq<u32>, prev: int) -> Option<Seq<u32>>
    decreases d.len(),
{
    if d.len() == 0 {
        Some(Seq::empty())
    } else {
        let next = prev + d[0];
        if next > u32::MAX {
            None
        } else {
            match spec_sums_from(d.skip(1), next) {
                None => None,
                Some(t) => Some(seq![next as u32] + t),
            }
        }
    }
}

/// The absolute ids recovered from wire deltas by prefix summing.
pub open spec fn spec_prefix_sums(d: Seq<u32>) -> Option<Seq<u32>> {
    spec_sums_from(d, 0)
}

/// The first differences of an id sequence against a base: what the wire
/// stores for ids recovered by [`spec_sums_from`].
pub open spec fn spec_diffs_from(ids: Seq<u32>, prev: int) -> Seq<u32> {
    Seq::new(ids.len(), |i: int| if i == 0 { (ids[0] - prev) as u32 } else { (ids[i] - ids[i - 1]) as u32 })
}

/// The first differences of an id sequence: the deltas the wire stores.
pub open spec fn spec_first_differences(ids: Seq<u32>) -> Seq<u32> {
    spec_diffs_from(ids, 0)
}

/// The ids a prefix sum yields never decrease, and each lies at or above
/// the base.
pub proof fn lemma_sums_from_monotone(d: Seq<u32>, prev: int)
    requires
        0 <= prev,
        spec_sums_from(d, prev) is Some,
    ensures
        ({
            let s = spec_sums_from(d, prev)->Some_0;
            &&& s.len() == d.len()
            &&& forall|i: int| 0 <= i < s.len() ==> prev <= #[trigger] s[i]
            &&& forall|i: int, j: int| 0 <= i < j < s.len() ==> s[i] <= s[j]
        }),
    decreases d.len(),
{
    if d.len() > 0 {
        let next = prev + d[0];
        lemma_sums_from_monotone(d.skip(1), next);
    }
}

/// Law: taking first differences of a prefix sum gives back the deltas.
pub proof fn lemma_diffs_of_sums(d: Seq<u32>, prev: int)
    requires
        0 <= prev,
        spec_sums_from(d, prev) is Some,
    ensures
        spec_diffs_from(spec_sums_from(d, prev)->Some_0, prev) == d,
    decreases d.len(),
{
    if d.len() > 0 {
        let next = prev + d[0];
        let t = spec_sums_from(d.skip(1), next)->Some_0;
        let s = spec_sums_from(d, prev)->Some_0;
        lemma_diffs_of_sums(d.skip(1), next);
        lemma_sums_from_monotone(d.skip(1), next);
        assert forall|i: int| 0 <= i < d.len() implies spec_diffs_from(s, prev)[i] == d[i] by {
            if i == 0 {
            } else if i == 1 {
                assert(s[1] == t[0]);
                assert(spec_diffs_from(t, next)[0] == d.skip(1)[0]);
            } else {
                assert(s[i] == t[i - 1] && s[i - 1] == t[i - 2]);
                assert(spec_diffs_from(t, next)[i - 1] == d.skip(1)[i - 1]);
            }
        }
        assert(spec_diffs_from(s, prev) =~= d);
    } else {
        assert(spec_diffs_from(spec_sums_from(d, prev)->Some_0, prev) =~= d);
    }
}

/// Law: prefix-summing the first differences of a non-decreasing id
/// sequence gives back the ids.
pub proof fn lemma_sums_of_diffs(ids: Seq<u32>, prev: int)
    requires
        0 <= prev,
        ids.len() > 0 ==> prev <= ids[0],
        forall|i: int| 0 < i < ids.len() ==> ids[i - 1] <= #[trigger] ids[i],
    ensures
        spec_sums_from(spec_diffs_from(ids, prev), prev) == Some(ids),
    decreases ids.len(),
{
    if ids.len() > 0 {
        let d = spec_diffs_from(ids, prev);
        let next = prev + d[0];
        assert(next == ids[0]);
        assert(spec_diffs_from(ids.skip(1), next) =~= d.skip(1));
        lemma_sums_of_diffs(ids.skip(1), next);
        assert(spec_sums_from(d, prev)->Some_0 =~= ids);
    } else {
        assert(spec_diffs_from(ids, prev) =~= Seq::<u32>::empty());
    }
}

/// Law: for any delta sequence whose sums fit, re-serialising the recovered
/// absolute ids as their first differences reproduces the wire deltas.
pub proof fn lemma_prefix_sum_round_trip(d: Seq<u32>)
    requires
        spec_prefix_sums(d) is Some,
    ensures
        spec_first_differences(spec_prefix_sums(d)->Some_0) == d,
{
    lemma_diffs_of_sums(d, 0);
}

/// The catalog of one index: entries in ascending archive id order, each id
/// at most once.
#[derive(Clone, Debug)]
pub struct IndexMetadata {
    /// The entries, ascending by archive id.
    pub entries: Vec<Metadata>,
}

impl IndexMetadata {
    /// Archive ids strictly increase through the entries.
    pub open spec fn wf(&self) -> bool {
        forall|i: int, j: int|
            0 <= i < j < self.entries@.len() ==> self.entries@[i].archive_id
                < self.entries@[j].archive_id
    }

    /// The archive ids, in entry order.
    pub open spec fn key_seq(&self) -> Seq<u32> {
        self.entries@.map_values(|m: Metadata| m.archive_id)
    }

    /// Whether some entry has this archive id.
    pub open spec fn spec_contains(&self, archive_id: u32) -> bool {
        exists|i: int|
            0 <= i < self.entries@.len() && self.entries@[i].archive_id == archive_id
    }

    /// The entry with this archive id, if one exists.
    pub open spec fn spec_get(&self, archive_id: u32) -> Option<Metadata> {
        if self.spec_contains(archive_id) {
            Some(
                self.entries@[choose|i: int|
                    0 <= i < self.entries@.len() && self.entries@[i].archive_id == archive_id],
            )
        } else {
            None
        }
    }

    /// A catalog with no entries.
    pub fn empty() -> (r: IndexMetadata)
        ensures
            r.wf(),
            r.entries@.len() == 0,
    {
        IndexMetadata { entries: Vec::new() }
    }

    /// The ids of the archives in the index, ascending.
    pub fn keys(&self) -> (r: Vec<u32>)
        ensures
            r@ == self.key_seq(),
    {
        let mut r: Vec<u32> = Vec::new();
        let n = self.entries.len();
        let mut i: usize = 0;
        while i < n
            invariant
                n == self.entries@.len(),
                0 <= i <= n,
                r@ == self.key_seq().take(i as int),
            decreases n - i,
        {
            r.push(self.entries[i].archive_id);
            i = i + 1;
            proof {
                assert(r@ =~= self.key_seq().take(i as int));
            }
        }
        proof {
            assert(r@ =~= self.key_seq());
        }
        r
    }

    /// The entry for `archive_id`, if the catalog has one.
    pub fn get(&self, archive_id: u32) -> (r: Option<&Metadata>)
        ensures
            match r {
                Some(m) => self.spec_contains(archive_id) && m.archive_id == archive_id && (
                exists|i: int| 0 <= i < self.entries@.len() && self.entries@[i] == *m),
                None => !self.spec_contains(archive_id),
            },
    {
        let n = self.entries.len();
        let mut i: usize = 0;
        while i < n
            invariant
                n == self.entries@.len(),
                0 <= i <= n,
                forall|j: int| 0 <= j < i ==> self.entries@[j].archive_id != archive_id,
            decreases n - i,
        {
            if self.entries[i].archive_id() == archive_id {
                return Some(&self.entries[i]);
            }
            i = i + 1;
        }
        None
    }

    /// A view over all entries, ascending by archive id.
    pub fn iter(&self) -> (r: &Vec<Metadata>)
        ensures
            r == &self.entries,
    {
        &self.entries
    }

    /// A view over all entries, ascending by archive id.
    pub fn metadatas(&self) -> (r: &Vec<Metadata>)
        ensures
            r == &self.entries,
    {
        &self.entries
    }

    /// The entries themselves, ascending by archive id.
    pub fn into_iter(self) -> (r: Vec<Metadata>)
        ensures
            r == self.entries,
    {
        self.entries
    }
}

/// Reads `count` wire ids: smart32 when the format is wide, an unsigned
/// short otherwise. An absent smart32 is malformed and fails the read.
fn read_counted(buffer: &mut Buffer, wide: bool, count: usize) -> (r: Result<Vec<u32>, ReadError>)
    requires
        old(buffer).wf(),
    ensures
        final(buffer).wf(),
        final(buffer).data == old(buffer).data,
        old(buffer).pos <= final(buffer).pos,
        match spec_id_block(old(buffer).rem(), wide, count as nat) {
            Some((vals, n)) => (r matches Ok(v) && v@ == vals && v@.len() == count && old(
                buffer,
            ).advanced(*final(buffer), n)),
            None => r is Err,
        },
{
    let mut out: Vec<u32> = Vec::new();
    let mut i: usize = 0;
    proof {
        if spec_id_block(old(buffer).rem(), wide, count as nat) is Some {
            let (vals, n) = spec_id_block(old(buffer).rem(), wide, count as nat)->Some_0;
            assert(out@ + vals =~= vals);
        }
    }
    while i < count
        invariant
            buffer.wf(),
            buffer.data == old(buffer).data,
            old(buffer).pos <= buffer.pos,
            0 <= i <= count,
            out@.len() == i,
            match spec_id_block(old(buffer).rem(), wide, count as nat) {
                Some((vals, n)) => (spec_id_block(buffer.rem(), wide, (count - i) as nat) matches
                    Some((t, m)) && vals == out@ + t && n == buffer.pos - old(buffer).pos + m),
                None => spec_id_block(buffer.rem(), wide, (count - i) as nat) is None,
            },
        decreases count - i,
    {
        let ghost pre = buffer.rem();
        let v: u32;
        if wide {
            match buffer.try_get_smart32() {
                Ok(Some(w)) => {
                    v = w;
                },
                Ok(None) => {
                    return Err(ReadError::eof());
                },
                Err(e) => {
                    return Err(e);
                },
            }
        } else {
            match buffer.try_get_u16() {
                Ok(w) => {
                    v = w as u32;
                },
                Err(e) => {
                    return Err(e);
                },
            }
        }
        let ghost n1 = spec_wire_id(pre, wide)->Some_0.1;
        let ghost out0 = out@;
        out.push(v);
        i = i + 1;
        proof {
            assert(buffer.rem() =~= pre.skip(n1));
            if spec_id_block(old(buffer).rem(), wide, count as nat) is Some {
                let (t2, m2) = spec_id_block(buffer.rem(), wide, (count - i) as nat)->Some_0;
                assert(out0 + (seq![v] + t2) =~= out@ + t2);
            }
        }
    }
    proof {
        if spec_id_block(old(buffer).rem(), wide, count as nat) is Some {
            let (vals, n) = spec_id_block(old(buffer).rem(), wide, count as nat)->Some_0;
            assert(out@ + Seq::<u32>::empty() =~= out@);
        }
    }
    Ok(out)
}

/// Reads `count` big-endian signed words.
fn read_i32s(buffer: &mut Buffer, count: usize) -> (r: Result<Vec<i32>, ReadError>)
    requires
        old(buffer).wf(),
    ensures
        final(buffer).wf(),
        final(buffer).data == old(buffer).data,
        old(buffer).pos <= final(buffer).pos,
        match spec_i32_block(old(buffer).rem(), count as nat) {
            Some((vals, n)) => (r matches Ok(v) && v@ == vals && old(buffer).advanced(
                *final(buffer),
                n,
            )),
            None => r is Err,
        },
{
    let mut out: Vec<i32> = Vec::new();
    let mut i: usize = 0;
    while i < count
        invariant
            buffer.wf(),
            buffer.data == old(buffer).data,
            old(buffer).advanced(*buffer, 4 * i),
            0 <= i <= count,
            out@.len() == i,
            forall|t: int|
                0 <= t < i ==> out@[t] == as_signed_32(
                    be_uint(old(buffer).rem().skip(4 * t), 4),
                ) as i32,
        decreases count - i,
    {
        let ghost pre = buffer.rem();
        match buffer.try_get_i32() {
            Ok(v) => {
                out.push(v);
            },
            Err(_) => {
                proof {
                    assert(pre.len() == old(buffer).rem().len() - 4 * i);
                    assert(old(buffer).rem().len() < 4 * (count as int));
                }
                return Err(ReadError::eof());
            },
        }
        i = i + 1;
        proof {
            assert(pre =~= old(buffer).rem().skip(4 * (i - 1)));
        }
    }
    proof {
        assert(old(buffer).rem().len() >= 4 * (count as int));
        let (vals, n) = spec_i32_block(old(buffer).rem(), count as nat)->Some_0;
        assert(out@ =~= vals);
    }
    Ok(out)
}

/// Reads `count` 64-byte digests.
fn read_digests(buffer: &mut Buffer, count: usize) -> (r: Result<Vec<Vec<u8>>, ReadError>)
    requires
        old(buffer).wf(),
    ensures
        final(buffer).wf(),
        final(buffer).data == old(buffer).data,
        old(buffer).pos <= final(buffer).pos,
        match spec_digest_block(old(buffer).rem(), count as nat) {
            Some((vals, n)) => (r matches Ok(v) && v@.map_values(|d: Vec<u8>| d@) == vals && old(
                buffer,
            ).advanced(*final(buffer), n)),
            None => r is Err,
        },
{
    let mut out: Vec<Vec<u8>> = Vec::new();
    let mut i: usize = 0;
    while i < count
        invariant
            buffer.wf(),
            buffer.data == old(buffer).data,
            old(buffer).advanced(*buffer, 64 * i),
            0 <= i <= count,
            out@.len() == i,
            forall|t: int|
                0 <= t < i ==> (#[trigger] out@[t])@ == old(buffer).rem().subrange(
                    64 * t,
                    64 * t + 64,
                ),
        decreases count - i,
    {
        let ghost pre = buffer.rem();
        match buffer.try_get_bytes(64) {
            Ok(d) => {
                out.push(d);
            },
            Err(_) => {
                proof {
                    assert(pre.len() == old(buffer).rem().len() - 64 * i);
                    assert(old(buffer).rem().len() < 64 * (count as int));
                }
                return Err(ReadError::eof());
            },
        }
        i = i + 1;
        proof {
            assert(pre =~= old(buffer).rem().skip(64 * (i - 1)));
            assert(pre.take(64) =~= old(buffer).rem().subrange(64 * (i - 1), 64 * (i - 1) + 64));
        }
    }
    proof {
        assert(old(buffer).rem().len() >= 64 * (count as int));
        let (vals, n) = spec_digest_block(old(buffer).rem(), count as nat)->Some_0;
        assert(out@.map_values(|d: Vec<u8>| d@) =~= vals);
    }
    Ok(out)
}

/// Reads `count` pairs of big-endian unsigned words: the stored and the
/// decompressed size of each entry.
fn read_size_pairs(buffer: &mut Buffer, count: usize) -> (r: Result<
    (Vec<u32>, Vec<u32>),
    ReadError,
>)
    requires
        old(buffer).wf(),
    ensures
        final(buffer).wf(),
        final(buffer).data == old(buffer).data,
        old(buffer).pos <= final(buffer).pos,
        match spec_size_block(old(buffer).rem(), count as nat) {
            Some((cs, ss, n)) => (r matches Ok(v) && v.0@ == cs && v.1@ == ss && old(
                buffer,
            ).advanced(*final(buffer), n)),
            None => r is Err,
        },
{
    let mut compressed: Vec<u32> = Vec::new();
    let mut sizes: Vec<u32> = Vec::new();
    let mut i: usize = 0;
    while i < count
        invariant
            buffer.wf(),
            buffer.data == old(buffer).data,
            old(buffer).advanced(*buffer, 8 * i),
            0 <= i <= count,
            compressed@.len() == i,
            sizes@.len() == i,
            forall|t: int|
                0 <= t < i ==> compressed@[t] == be_uint(
                    old(buffer).rem().skip(8 * t),
                    4,
                ) as u32,
            forall|t: int|
                0 <= t < i ==> sizes@[t] == be_uint(old(buffer).rem().skip(8 * t + 4), 4) as u32,
        decreases count - i,
    {
        let ghost pre = buffer.rem();
        let c = match buffer.try_get_u32() {
            Ok(v) => v,
            Err(_) => {
                proof {
                    assert(pre.len() == old(buffer).rem().len() - 8 * i);
                    assert(old(buffer).rem().len() < 8 * (count as int));
                }
                return Err(ReadError::eof());
            },
        };
        let ghost mid = buffer.rem();
        let s = match buffer.try_get_u32() {
            Ok(v) => v,
            Err(_) => {
                proof {
                    assert(mid.len() == old(buffer).rem().len() - 8 * i - 4);
                    assert(old(buffer).rem().len() < 8 * (count as int));
                }
                return Err(ReadError::eof());
            },
        };
        compressed.push(c);
        sizes.push(s);
        i = i + 1;
        proof {
            assert(pre =~= old(buffer).rem().skip(8 * (i - 1)));
            assert(mid =~= old(buffer).rem().skip(8 * (i - 1) + 4));
        }
    }
    proof {
        assert(old(buffer).rem().len() >= 8 * (count as int));
        let (cs, ss, n) = spec_size_block(old(buffer).rem(), count as nat)->Some_0;
        assert(compressed@ =~= cs);
        assert(sizes@ =~= ss);
    }
    Ok((compressed, sizes))
}

/// Prefix-sums wire deltas into absolute ids, failing the read when a sum
/// leaves `u32`.
fn prefix_sums(deltas: &Vec<u32>) -> (r: Result<Vec<u32>, ReadError>)
    ensures
        r matches Ok(v) ==> spec_prefix_sums(deltas@) == Some(v@),
        r is Err ==> spec_prefix_sums(deltas@) is None,
{
    let mut out: Vec<u32> = Vec::new();
    let mut acc: u32 = 0;
    let n = deltas.len();
    let mut i: usize = 0;
    proof {
        assert(deltas@.skip(0int) =~= deltas@);
        if spec_sums_from(deltas@, 0) is Some {
            assert(Seq::<u32>::empty() + spec_sums_from(deltas@, 0)->Some_0 =~= spec_sums_from(
                deltas@,
                0,
            )->Some_0);
        }
    }
    while i < n
        invariant
            n == deltas@.len(),
            0 <= i <= n,
            out@.len() == i,
            spec_sums_from(deltas@, 0) == ({
                match spec_sums_from(deltas@.skip(i as int), acc as int) {
                    None => None::<Seq<u32>>,
                    Some(t) => Some(out@ + t),
                }
            }),
        decreases n - i,
    {
        let d = deltas[i];
        let ghost pre = deltas@.skip(i as int);
        if acc > u32::MAX - d {
            proof {
                assert(spec_sums_from(pre, acc as int) is None);
            }
            return Err(ReadError::eof());
        }
        acc = acc + d;
        out.push(acc);
        i = i + 1;
        proof {
            assert(pre[0] == d);
            assert(pre.skip(1) =~= deltas@.skip(i as int));
            assert(match spec_sums_from(deltas@.skip(i as int), acc as int) {
                None => spec_sums_from(pre, (acc - d) as int) is None,
                Some(t) => out@ + t =~= out@.take(i - 1) + (seq![acc] + t),
            });
        }
    }
    proof {
        assert(deltas@.skip(n as int) =~= Seq::<u32>::empty());
        assert(out@ + Seq::<u32>::empty() =~= out@);
    }
    Ok(out)
}

/// Reads one delta-encoded child list per entry, each prefix-summed into
/// absolute child ids.
fn read_child_lists(buffer: &mut Buffer, wide: bool, counts: &Vec<u32>) -> (r: Result<
    Vec<Vec<u32>>,
    ReadError,
>)
    requires
        old(buffer).wf(),
    ensures
        final(buffer).wf(),
        final(buffer).data == old(buffer).data,
        old(buffer).pos <= final(buffer).pos,
        match spec_child_lists(old(buffer).rem(), wide, counts@) {
            Some((vals, n)) => (r matches Ok(v) && v@.map_values(|x: Vec<u32>| x@) == vals
                && v@.len() == counts@.len() && (forall|j: int|
                0 <= j < v@.len() ==> (#[trigger] v@[j])@.len() == counts@[j]) && old(
                buffer,
            ).advanced(*final(buffer), n)),
            None => r is Err,
        },
{
    let mut out: Vec<Vec<u32>> = Vec::new();
    let n = counts.len();
    let mut k: usize = 0;
    proof {
        assert(counts@.skip(0int) =~= counts@);
        if spec_child_lists(old(buffer).rem(), wide, counts@) is Some {
            let (vals, m) = spec_child_lists(old(buffer).rem(), wide, counts@)->Some_0;
            assert(Seq::<Seq<u32>>::empty() + vals =~= vals);
            assert(out@.map_values(|x: Vec<u32>| x@) =~= Seq::<Seq<u32>>::empty());
        }
    }
    while k < n
        invariant
            buffer.wf(),
            buffer.data == old(buffer).data,
            old(buffer).pos <= buffer.pos,
            n == counts@.len(),
            0 <= k <= n,
            out@.len() == k,
            forall|j: int| 0 <= j < k ==> (#[trigger] out@[j])@.len() == counts@[j],
            match spec_child_lists(old(buffer).rem(), wide, counts@) {
                Some((vals, m)) => (spec_child_lists(buffer.rem(), wide, counts@.skip(k as int))
                    matches Some((t, m2)) && vals == out@.map_values(|x: Vec<u32>| x@) + t && m
                    == buffer.pos - old(buffer).pos + m2),
                None => spec_child_lists(buffer.rem(), wide, counts@.skip(k as int)) is None,
            },
        decreases n - k,
    {
        let ghost pre = buffer.rem();
        let ghost pre_counts = counts@.skip(k as int);
        let count = counts[k];
        let deltas = match read_counted(buffer, wide, count as usize) {
            Ok(v) => v,
            Err(e) => {
                return Err(e);
            },
        };
        let childs = match prefix_sums(&deltas) {
            Ok(v) => v,
            Err(e) => {
                return Err(e);
            },
        };
        let ghost n1 = spec_id_block(pre, wide, count as nat)->Some_0.1;
        proof {
            lemma_sums_from_monotone(deltas@, 0);
        }
        let ghost out0 = out@.map_values(|x: Vec<u32>| x@);
        out.push(childs);
        k = k + 1;
        proof {
            assert(pre_counts[0] == count);
            assert(pre_counts.skip(1) =~= counts@.skip(k as int));
            assert(buffer.rem() =~= pre.skip(n1));
            assert(out@.map_values(|x: Vec<u32>| x@) =~= out0.push(childs@));
            if spec_child_lists(old(buffer).rem(), wide, counts@) is Some {
                let (t2, m2) = spec_child_lists(buffer.rem(), wide, counts@.skip(k as int))
                    ->Some_0;
                assert(out0 + (seq![childs@] + t2) =~= out0.push(childs@) + t2);
            }
        }
    }
    proof {
        assert(counts@.skip(n as int) =~= Seq::<u32>::empty());
        if spec_child_lists(old(buffer).rem(), wide, counts@) is Some {
            assert(out@.map_values(|x: Vec<u32>| x@) + Seq::<Seq<u32>>::empty() =~= out@.map_values(
                |x: Vec<u32>| x@,
            ));
        }
    }
    Ok(out)
}

/// Zips the parsed sections into catalog entries, front to back, an entry
/// repeating the last archive id replacing it.
#[verifier::rlimit(100)]
fn assemble_entries(
    index_id: u32,
    named: bool,
    hashed: bool,
    extended: bool,
    entry_count: usize,
    archive_ids: Vec<u32>,
    names: Vec<i32>,
    crcs: Vec<i32>,
    unknowns: Vec<i32>,
    digests: Vec<Vec<u8>>,
    compressed_sizes: Vec<u32>,
    sizes: Vec<u32>,
    versions: Vec<i32>,
    child_counts: Vec<u32>,
    child_indices: Vec<Vec<u32>>,
) -> (r: Vec<Metadata>)
    requires
        archive_ids@.len() == entry_count,
        named ==> names@.len() == entry_count,
        crcs@.len() == entry_count,
        extended ==> unknowns@.len() == entry_count,
        hashed ==> digests@.len() == entry_count,
        !hashed ==> digests@.len() == 0,
        extended ==> compressed_sizes@.len() == entry_count,
        extended ==> sizes@.len() == entry_count,
        versions@.len() == entry_count,
        child_counts@.len() == entry_count,
        child_indices@.len() == entry_count,
        forall|j: int|
            0 <= j < entry_count ==> (#[trigger] child_indices@[j])@.len() == child_counts@[j],
        forall|i: int, j: int|
            0 <= i < j < archive_ids@.len() ==> archive_ids@[i] <= archive_ids@[j],
    ensures
        forall|i: int, j: int|
            0 <= i < j < r@.len() ==> (#[trigger] r@[i]).archive_id < (#[trigger] r@[j]).archive_id,
        forall|i: int|
            0 <= i < r@.len() ==> (#[trigger] r@[i]).index_id == index_id
                && r@[i].child_indices@.len() == r@[i].child_count,
        r@.map_values(|m: Metadata| m@) == spec_insert_entries(
            Seq::empty(),
            spec_zip_entries(
                index_id,
                named,
                hashed,
                extended,
                entry_count as nat,
                archive_ids@,
                names@,
                crcs@,
                unknowns@,
                digests@.map_values(|d: Vec<u8>| d@),
                compressed_sizes@,
                sizes@,
                versions@,
                child_counts@,
                child_indices@.map_values(|x: Vec<u32>| x@),
            ),
        ),
{
    let ghost raw = spec_zip_entries(
        index_id,
        named,
        hashed,
        extended,
        entry_count as nat,
        archive_ids@,
        names@,
        crcs@,
        unknowns@,
        digests@.map_values(|d: Vec<u8>| d@),
        compressed_sizes@,
        sizes@,
        versions@,
        child_counts@,
        child_indices@.map_values(|x: Vec<u32>| x@),
    );
    let mut digests = digests;
    let mut child_indices = child_indices;
        let ghost digests0 = digests@;
        let ghost childs0 = child_indices@;
        let mut entries: Vec<Metadata> = Vec::new();
        let mut k: usize = 0;
        proof {
            assert(raw.skip(0int) =~= raw);
            assert(entries@.map_values(|m: Metadata| m@) =~= Seq::<MetadataView>::empty());
            assert(digests@.skip(0int) =~= digests@);
            assert(child_indices@.skip(0int) =~= child_indices@);
        }
        while k < entry_count
            invariant
                0 <= k <= entry_count,
                archive_ids@.len() == entry_count,
                named ==> names@.len() == entry_count,
                crcs@.len() == entry_count,
                extended ==> unknowns@.len() == entry_count,
                hashed ==> digests0.len() == entry_count,
                extended ==> compressed_sizes@.len() == entry_count,
                extended ==> sizes@.len() == entry_count,
                versions@.len() == entry_count,
                child_counts@.len() == entry_count,
                childs0.len() == entry_count,
                hashed ==> digests@ =~= digests0.skip(k as int),
                !hashed ==> digests@.len() == 0,
                child_indices@ =~= childs0.skip(k as int),
                raw.len() == entry_count,
                raw == spec_zip_entries(
                    index_id,
                    named,
                    hashed,
                    extended,
                    entry_count as nat,
                    archive_ids@,
                    names@,
                    crcs@,
                    unknowns@,
                    digests0.map_values(|d: Vec<u8>| d@),
                    compressed_sizes@,
                    sizes@,
                    versions@,
                    child_counts@,
                    childs0.map_values(|x: Vec<u32>| x@),
                ),
                forall|j: int|
                    0 <= j < entry_count ==> (#[trigger] childs0[j])@.len() == child_counts@[j],
                forall|i: int, j: int|
                    0 <= i < j < archive_ids@.len() ==> archive_ids@[i] <= archive_ids@[j],
                forall|i: int, j: int|
                    0 <= i < j < entries@.len() ==> (#[trigger] entries@[i]).archive_id < (
                    #[trigger] entries@[j]).archive_id,
                forall|i: int|
                    0 <= i < entries@.len() ==> (#[trigger] entries@[i]).index_id == index_id
                        && entries@[i].child_indices@.len() == entries@[i].child_count,
                k > 0 && entries@.len() > 0 ==> entries@.last().archive_id == archive_ids@[k - 1],
                entries@.len() <= k,
                spec_insert_entries(Seq::empty(), raw) == spec_insert_entries(
                    entries@.map_values(|m: Metadata| m@),
                    raw.skip(k as int),
                ),
            decreases entry_count - k,
        {
            let archive_id = archive_ids[k];
            let digest: Option<Vec<u8>> = if hashed {
                Some(digests.remove(0))
            } else {
                None
            };
            let childs: Vec<u32> = child_indices.remove(0);
            let m = Metadata {
                index_id,
                archive_id,
                name: if named {
                    Some(names[k])
                } else {
                    None
                },
                crc: crcs[k],
                version: versions[k],
                unknown: if extended {
                    Some(unknowns[k])
                } else {
                    None
                },
                compressed_size: if extended {
                    Some(compressed_sizes[k])
                } else {
                    None
                },
                size: if extended {
                    Some(sizes[k])
                } else {
                    None
                },
                digest,
                child_count: child_counts[k],
                child_indices: childs,
            };
            proof {
                assert(m@ == raw[k as int]);
                assert(raw.skip(k as int)[0] == raw[k as int]);
            }
            let ghost acc0 = entries@.map_values(|m2: Metadata| m2@);
            let replace = if entries.len() > 0 {
                entries[entries.len() - 1].archive_id() == archive_id
            } else {
                false
            };
            if replace {
                let last = entries.len() - 1;
                entries.set(last, m);
                proof {
                    assert(entries@.map_values(|m2: Metadata| m2@) =~= acc0.update(
                        acc0.len() - 1,
                        raw[k as int],
                    ));
                }
            } else {
                entries.push(m);
                proof {
                    assert(entries@.map_values(|m2: Metadata| m2@) =~= acc0.push(raw[k as int]));
                }
            }
            k = k + 1;
            proof {
                assert(raw.skip(k - 1).skip(1) =~= raw.skip(k as int));
            }
        }
    proof {
        assert(raw.skip(entry_count as int) =~= Seq::<MetadataView>::empty());
    }
    entries
}

/// With the first four sections after the archive ids known, the tail of
/// the catalog is whatever the remainder parses to.
proof fn lemma_tail_composes(
    s1: Seq<u8>,
    index_id: u32,
    wide: bool,
    named: bool,
    hashed: bool,
    extended: bool,
    count: nat,
    ids: Seq<u32>,
    names: Seq<i32>,
    n2: int,
    crcs: Seq<i32>,
    n3: int,
    unknowns: Seq<i32>,
    n4: int,
    digests: Seq<Seq<u8>>,
    n5: int,
)
    requires
        (if named {
            spec_i32_block(s1, count)
        } else {
            Some((Seq::<i32>::empty(), 0int))
        }) == Some((names, n2)),
        spec_i32_block(s1.skip(n2), count) == Some((crcs, n3)),
        (if extended {
            spec_i32_block(s1.skip(n2).skip(n3), count)
        } else {
            Some((Seq::<i32>::empty(), 0int))
        }) == Some((unknowns, n4)),
        (if hashed {
            spec_digest_block(s1.skip(n2).skip(n3).skip(n4), count)
        } else {
            Some((Seq::<Seq<u8>>::empty(), 0int))
        }) == Some((digests, n5)),
    ensures
        spec_catalog_tail(s1, index_id, wide, named, hashed, extended, count, ids)
            == spec_catalog_tail2(
            s1.skip(n2).skip(n3).skip(n4).skip(n5),
            index_id,
            wide,
            named,
            hashed,
            extended,
            count,
            ids,
            names,
            crcs,
            unknowns,
            digests,
        ),
{
}

/// With every section after the digests known, the rest of the catalog
/// assembles the zipped entries.
proof fn lemma_tail2_composes(
    s5: Seq<u8>,
    index_id: u32,
    wide: bool,
    named: bool,
    hashed: bool,
    extended: bool,
    count: nat,
    ids: Seq<u32>,
    names: Seq<i32>,
    crcs: Seq<i32>,
    unknowns: Seq<i32>,
    digests: Seq<Seq<u8>>,
    compressed: Seq<u32>,
    sizes: Seq<u32>,
    n6: int,
    versions: Seq<i32>,
    n7: int,
    ccounts: Seq<u32>,
    n8: int,
    childs: Seq<Seq<u32>>,
    n9: int,
)
    requires
        (if extended {
            spec_size_block(s5, count)
        } else {
            Some((Seq::<u32>::empty(), Seq::<u32>::empty(), 0int))
        }) == Some((compressed, sizes, n6)),
        spec_i32_block(s5.skip(n6), count) == Some((versions, n7)),
        spec_id_block(s5.skip(n6).skip(n7), wide, count) == Some((ccounts, n8)),
        spec_child_lists(s5.skip(n6).skip(n7).skip(n8), wide, ccounts) == Some((childs, n9)),
    ensures
        spec_catalog_tail2(
            s5,
            index_id,
            wide,
            named,
            hashed,
            extended,
            count,
            ids,
            names,
            crcs,
            unknowns,
            digests,
        ) == Some(
            spec_insert_entries(
                Seq::empty(),
                spec_zip_entries(
                    index_id,
                    named,
                    hashed,
                    extended,
                    count,
                    ids,
                    names,
                    crcs,
                    unknowns,
                    digests,
                    compressed,
                    sizes,
                    versions,
                    ccounts,
                    childs,
                ),
            ),
        ),
{
}

/// Reads the catalog sections after the digests, as [`spec_catalog_tail2`]
/// reads them, and assembles the entries.
#[verifier::rlimit(100)]
fn parse_tail2(
    buffer: &mut Buffer,
    index_id: u32,
    wide: bool,
    named: bool,
    hashed: bool,
    extended: bool,
    entry_count: usize,
    archive_ids: Vec<u32>,
    names: Vec<i32>,
    crcs: Vec<i32>,
    unknowns: Vec<i32>,
    digests: Vec<Vec<u8>>,
) -> (r: Result<IndexMetadata, ReadError>)
    requires
        old(buffer).wf(),
        archive_ids@.len() == entry_count,
        forall|i: int, j: int|
            0 <= i < j < archive_ids@.len() ==> archive_ids@[i] <= archive_ids@[j],
        named ==> names@.len() == entry_count,
        crcs@.len() == entry_count,
        extended ==> unknowns@.len() == entry_count,
        hashed ==> digests@.len() == entry_count,
        !hashed ==> digests@.len() == 0,
    ensures
        final(buffer).wf(),
        r matches Ok(im) ==> im.wf() && (forall|i: int|
            0 <= i < im.entries@.len() ==> (#[trigger] im.entries@[i]).index_id == index_id
                && im.entries@[i].child_indices@.len() == im.entries@[i].child_count)
            && spec_catalog_tail2(
            old(buffer).rem(),
            index_id,
            wide,
            named,
            hashed,
            extended,
            entry_count as nat,
            archive_ids@,
            names@,
            crcs@,
            unknowns@,
            digests@.map_values(|d: Vec<u8>| d@),
        ) == Some(im.entries@.map_values(|m: Metadata| m@)),
        r is Err ==> spec_catalog_tail2(
            old(buffer).rem(),
            index_id,
            wide,
            named,
            hashed,
            extended,
            entry_count as nat,
            archive_ids@,
            names@,
            crcs@,
            unknowns@,
            digests@.map_values(|d: Vec<u8>| d@),
        ) is None,
{
    let ghost u5 = old(buffer).rem();
    let (compressed_sizes, sizes) = if extended {
        match read_size_pairs(buffer, entry_count) {
            Ok(v) => v,
            Err(e) => {
                return Err(e);
            },
        }
    } else {
        (Vec::new(), Vec::new())
    };
    let ghost n6 = if extended {
        spec_size_block(u5, entry_count as nat)->Some_0.2
    } else {
        0int
    };
    let ghost u6 = u5.skip(n6);
    proof {
        assert(buffer.rem() =~= u6);
        if !extended {
            assert(compressed_sizes@ =~= Seq::<u32>::empty());
            assert(sizes@ =~= Seq::<u32>::empty());
        }
    }
    let versions = match read_i32s(buffer, entry_count) {
        Ok(v) => v,
        Err(e) => {
            return Err(e);
        },
    };
    let ghost n7 = spec_i32_block(u6, entry_count as nat)->Some_0.1;
    let ghost u7 = u6.skip(n7);
    proof {
        assert(buffer.rem() =~= u7);
    }
    let child_counts = match read_counted(buffer, wide, entry_count) {
        Ok(v) => v,
        Err(e) => {
            return Err(e);
        },
    };
    let ghost n8 = spec_id_block(u7, wide, entry_count as nat)->Some_0.1;
    let ghost u8s = u7.skip(n8);
    proof {
        assert(buffer.rem() =~= u8s);
    }
    let child_indices = match read_child_lists(buffer, wide, &child_counts) {
        Ok(v) => v,
        Err(e) => {
            return Err(e);
        },
    };
    proof {
        lemma_tail2_composes(
            u5,
            index_id,
            wide,
            named,
            hashed,
            extended,
            entry_count as nat,
            archive_ids@,
            names@,
            crcs@,
            unknowns@,
            digests@.map_values(|d: Vec<u8>| d@),
            compressed_sizes@,
            sizes@,
            n6,
            versions@,
            n7,
            child_counts@,
            n8,
            child_indices@.map_values(|x: Vec<u32>| x@),
            spec_child_lists(u8s, wide, child_counts@)->Some_0.1,
        );
    }
    let entries = assemble_entries(
        index_id,
        named,
        hashed,
        extended,
        entry_count,
        archive_ids,
        names,
        crcs,
        unknowns,
        digests,
        compressed_sizes,
        sizes,
        versions,
        child_counts,
        child_indices,
    );
    Ok(IndexMetadata { entries })
}

/// Reads the catalog sections after the archive ids, as
/// [`spec_catalog_tail`] reads them, and assembles the entries.
#[verifier::rlimit(100)]
fn parse_tail(
    buffer: &mut Buffer,
    index_id: u32,
    wide: bool,
    named: bool,
    hashed: bool,
    extended: bool,
    entry_count: usize,
    archive_ids: Vec<u32>,
) -> (r: Result<IndexMetadata, ReadError>)
    requires
        old(buffer).wf(),
        archive_ids@.len() == entry_count,
        forall|i: int, j: int|
            0 <= i < j < archive_ids@.len() ==> archive_ids@[i] <= archive_ids@[j],
    ensures
        final(buffer).wf(),
        r matches Ok(im) ==> im.wf() && (forall|i: int|
            0 <= i < im.entries@.len() ==> (#[trigger] im.entries@[i]).index_id == index_id
                && im.entries@[i].child_indices@.len() == im.entries@[i].child_count)
            && spec_catalog_tail(
            old(buffer).rem(),
            index_id,
            wide,
            named,
            hashed,
            extended,
            entry_count as nat,
            archive_ids@,
        ) == Some(im.entries@.map_values(|m: Metadata| m@)),
        r is Err ==> spec_catalog_tail(
            old(buffer).rem(),
            index_id,
            wide,
            named,
            hashed,
            extended,
            entry_count as nat,
            archive_ids@,
        ) is None,
{
    let ghost t1 = old(buffer).rem();
    let names: Vec<i32> = if named {
        match read_i32s(buffer, entry_count) {
            Ok(v) => v,
            Err(e) => {
                return Err(e);
            },
        }
    } else {
        Vec::new()
    };
    let ghost n2 = if named {
        spec_i32_block(t1, entry_count as nat)->Some_0.1
    } else {
        0int
    };
    let ghost t2 = t1.skip(n2);
    proof {
        assert(buffer.rem() =~= t2);
        if !named {
            assert(names@ =~= Seq::<i32>::empty());
        }
    }
    let crcs = match read_i32s(buffer, entry_count) {
        Ok(v) => v,
        Err(e) => {
            return Err(e);
        },
    };
    let ghost n3 = spec_i32_block(t2, entry_count as nat)->Some_0.1;
    let ghost t3 = t2.skip(n3);
    proof {
        assert(buffer.rem() =~= t3);
    }
    let unknowns: Vec<i32> = if extended {
        match read_i32s(buffer, entry_count) {
            Ok(v) => v,
            Err(e) => {
                return Err(e);
            },
        }
    } else {
        Vec::new()
    };
    let ghost n4 = if extended {
        spec_i32_block(t3, entry_count as nat)->Some_0.1
    } else {
        0int
    };
    let ghost t4 = t3.skip(n4);
    proof {
        assert(buffer.rem() =~= t4);
        if !extended {
            assert(unknowns@ =~= Seq::<i32>::empty());
        }
    }
    let digests: Vec<Vec<u8>> = if hashed {
        match read_digests(buffer, entry_count) {
            Ok(v) => v,
            Err(e) => {
                return Err(e);
            },
        }
    } else {
        Vec::new()
    };
    let ghost n5 = if hashed {
        spec_digest_block(t4, entry_count as nat)->Some_0.1
    } else {
        0int
    };
    let ghost t5 = t4.skip(n5);
    proof {
        assert(buffer.rem() =~= t5);
        if !hashed {
            assert(digests@.map_values(|d: Vec<u8>| d@) =~= Seq::<Seq<u8>>::empty());
        } else {
            assert(digests@.len() == digests@.map_values(|d: Vec<u8>| d@).len());
        }
        lemma_tail_composes(
            t1,
            index_id,
            wide,
            named,
            hashed,
            extended,
            entry_count as nat,
            archive_ids@,
            names@,
            n2,
            crcs@,
            n3,
            unknowns@,
            n4,
            digests@.map_values(|d: Vec<u8>| d@),
            n5,
        );
    }
    parse_tail2(
        buffer,
        index_id,
        wide,
        named,
        hashed,
        extended,
        entry_count,
        archive_ids,
        names,
        crcs,
        unknowns,
        digests,
    )
}

impl IndexMetadata {
    /// Parses the catalog blob of `index_id`, as [`spec_catalog`] reads it:
    /// format byte, optional timestamp, flag byte, entry count, archive id
    /// deltas, then the per-entry sections the flags call for, and finally
    /// the delta-encoded child ids of every entry. Later entries win when a
    /// delta of zero repeats an archive id; a blob that ends too soon, an
    /// id sum that leaves `u32`, or an absent wide count fails the read.
    #[verifier::rlimit(100)]
    pub fn deserialize(index_id: u32, buffer: Buffer) -> (r: Result<IndexMetadata, ReadError>)
        requires
            buffer.wf(),
        ensures
            r matches Ok(im) ==> im.wf() && (forall|i: int|
                0 <= i < im.entries@.len() ==> (#[trigger] im.entries@[i]).index_id == index_id
                    && im.entries@[i].child_indices@.len() == im.entries@[i].child_count)
                && spec_catalog(buffer.rem(), index_id) == Some(
                im.entries@.map_values(|m: Metadata| m@),
            ),
            r is Err ==> spec_catalog(buffer.rem(), index_id) is None,
    {
        let ghost s_init = buffer.rem();
        let mut buffer = buffer;
        let format = match buffer.try_get_u8() {
            Ok(v) => v,
            Err(e) => {
                return Err(e);
            },
        };
        let ghost s_a = s_init.skip(1);
        proof {
            assert(buffer.rem() =~= s_a);
        }
        if format > 5 {
            match buffer.try_get_i32() {
                Ok(_) => {
                },
                Err(e) => {
                    return Err(e);
                },
            }
        }
        let ghost s_b = if format > 5 {
            s_a.skip(4)
        } else {
            s_a
        };
        proof {
            assert(buffer.rem() =~= s_b);
        }
        let flags = match buffer.try_get_u8() {
            Ok(v) => v,
            Err(e) => {
                return Err(e);
            },
        };
        let named = flags & 0x1 != 0;
        let hashed = flags & 0x2 != 0;
        let extended = flags & 0x4 != 0;
        let wide = format >= 7;
        let ghost s_c = s_b.skip(1);
        proof {
            assert(buffer.rem() =~= s_c);
        }
        let entry_count: usize;
        if wide {
            match buffer.try_get_smart32() {
                Ok(Some(v)) => {
                    entry_count = v as usize;
                },
                Ok(None) => {
                    return Err(ReadError::eof());
                },
                Err(e) => {
                    return Err(e);
                },
            }
        } else {
            match buffer.try_get_u16() {
                Ok(v) => {
                    entry_count = v as usize;
                },
                Err(e) => {
                    return Err(e);
                },
            }
        }
        let ghost n0 = spec_wire_id(s_c, wide)->Some_0.1;
        let ghost s0 = s_c.skip(n0);
        proof {
            assert(buffer.rem() =~= s0);
        }
        let deltas = match read_counted(&mut buffer, wide, entry_count) {
            Ok(v) => v,
            Err(e) => {
                return Err(e);
            },
        };
        let archive_ids = match prefix_sums(&deltas) {
            Ok(v) => v,
            Err(e) => {
                return Err(e);
            },
        };
        proof {
            lemma_sums_from_monotone(deltas@, 0);
        }
        let ghost n1 = spec_id_block(s0, wide, entry_count as nat)->Some_0.1;
        let ghost s1 = s0.skip(n1);
        proof {
            assert(buffer.rem() =~= s1);
        }
        match parse_tail(
            &mut buffer,
            index_id,
            wide,
            named,
            hashed,
            extended,
            entry_count,
            archive_ids,
        ) {
            Ok(im) => {
                proof {
                    assert(spec_catalog(s_init, index_id) == Some(
                        im.entries@.map_values(|m: Metadata| m@),
                    ));
                }
                Ok(im)
            },
            Err(e) => {
                proof {
                    assert(spec_catalog(s_init, index_id) is None);
                }
                Err(e)
            },
        }
    }
}

} // verus!