//! Archives: decompressed record groups split into their child files by the
//! trailing-length scheme. The last byte of the payload gives the stripe
//! count; before it sits a stripe-major table of chunk-size deltas; the
//! payload is read stripe by stripe, each chunk appended to its child.

use crate::buf::{as_signed_32, be_uint, ReadError, ReadErrorKind};
use crate::meta::Metadata;
use vstd::prelude::*;
use vstd::slice::slice_subrange;

verus! {

/// A decompressed record group: child files in declared order.
#[derive(Debug)]
pub struct Archive {
    /// The index this archive came from.
    pub index_id: u32,
    /// Its id within the index.
    pub archive_id: u32,
    /// The child files, as `(file id, bytes)` in declared order.
    pub files: Vec<(u32, Vec<u8>)>,
}

/// The lengths of all child buffers added up.
pub open spec fn sum_file_lens(files: Seq<(u32, Vec<u8>)>) -> int
    decreases files.len(),
{
    if files.len() == 0 {
        0
    } else {
        sum_file_lens(files.drop_last()) + files.last().1@.len()
    }
}

/// All child buffers joined in declared order.
pub open spec fn concat_files(files: Seq<(u32, Vec<u8>)>) -> Seq<u8>
    decreases files.len(),
{
    if files.len() == 0 {
        Seq::empty()
    } else {
        concat_files(files.drop_last()) + files.last().1@
    }
}

/// The chunk sizes added up.
pub open spec fn sum_chunks(c: Seq<usize>) -> int
    decreases c.len(),
{
    if c.len() == 0 {
        0
    } else {
        sum_chunks(c.drop_last()) + c.last()
    }
}

/// The chunks of one child added up over the first `s` stripes, rows laid
/// out `n` wide.
pub open spec fn col_sum(c: Seq<usize>, n: int, k: int, s: int) -> int
    decreases s,
{
    if s <= 0 {
        0
    } else {
        col_sum(c, n, k, s - 1) + c[(s - 1) * n + k]
    }
}

/// The per-child sums added up over the first `k` children.
pub open spec fn cols_total(c: Seq<usize>, n: int, s: int, k: int) -> int
    decreases k,
{
    if k <= 0 {
        0
    } else {
        cols_total(c, n, s, k - 1) + col_sum(c, n, k - 1, s)
    }
}

/// The chunks of the front of one row added up.
pub open spec fn row_part(c: Seq<usize>, n: int, s: int, k: int) -> int
    decreases k,
{
    if k <= 0 {
        0
    } else {
        row_part(c, n, s, k - 1) + c[s * n + k - 1]
    }
}

/// A prefix of the chunks never adds up to more than all of them.
proof fn lemma_sum_take_le(c: Seq<usize>, m: int)
    requires
        0 <= m <= c.len(),
    ensures
        sum_chunks(c.take(m)) <= sum_chunks(c),
    decreases c.len() - m,
{
    if m < c.len() {
        lemma_sum_take_step(c, m);
        lemma_sum_take_le(c, m + 1);
    } else {
        assert(c.take(m) =~= c);
    }
}

/// Taking one more chunk adds its size to the sum.
proof fn lemma_sum_take_step(c: Seq<usize>, m: int)
    requires
        0 <= m < c.len(),
    ensures
        sum_chunks(c.take(m + 1)) == sum_chunks(c.take(m)) + c[m],
{
    assert(c.take(m + 1).drop_last() =~= c.take(m));
    assert(c.take(m + 1).last() == c[m]);
}

/// A row's front adds up to the difference of two flat prefixes.
proof fn lemma_row_part_flat(c: Seq<usize>, n: int, s: int, k: int)
    requires
        0 <= k <= n,
        0 <= s,
        (s + 1) * n <= c.len(),
    ensures
        sum_chunks(c.take(s * n + k)) == sum_chunks(c.take(s * n)) + row_part(c, n, s, k),
    decreases k,
{
    assert(s * n >= 0 && s * n + n <= c.len()) by (nonlinear_arith)
        requires
            0 <= s,
            0 <= n,
            (s + 1) * n <= c.len(),
    ;
    if k > 0 {
        lemma_row_part_flat(c, n, s, k - 1);
        lemma_sum_take_step(c, s * n + k - 1);
    }
}

/// Adding one more stripe to every per-child sum adds that stripe's row.
proof fn lemma_cols_total_step(c: Seq<usize>, n: int, s: int, k: int)
    requires
        0 <= k <= n,
        1 <= s,
        s * n <= c.len(),
    ensures
        cols_total(c, n, s, k) == cols_total(c, n, s - 1, k) + row_part(c, n, s - 1, k),
    decreases k,
{
    if k > 0 {
        lemma_cols_total_step(c, n, s, k - 1);
    }
}

/// Summing child by child equals summing the flat table: the stripe-major
/// chunk table covers each cell exactly once.
proof fn lemma_cols_total_flat(c: Seq<usize>, n: int, s: int)
    requires
        0 <= n,
        0 <= s,
        s * n <= c.len(),
    ensures
        cols_total(c, n, s, n) == sum_chunks(c.take(s * n)),
    decreases s,
{
    if s == 0 {
        assert(c.take(0).len() == 0);
        assert forall|k: int| 0 <= k <= n implies cols_total(c, n, 0, k) == 0 by {
            lemma_cols_total_zero(c, n, k);
        }
    } else {
        assert((s - 1) * n <= c.len() && (s - 1) * n + n == s * n) by (nonlinear_arith)
            requires
                0 <= n,
                1 <= s,
                s * n <= c.len(),
        ;
        lemma_cols_total_flat(c, n, s - 1);
        lemma_cols_total_step(c, n, s, n);
        lemma_row_part_flat(c, n, s - 1, n);
    }
}

/// With no stripes every per-child sum is zero.
proof fn lemma_cols_total_zero(c: Seq<usize>, n: int, k: int)
    requires
        0 <= k,
    ensures
        cols_total(c, n, 0, k) == 0,
    decreases k,
{
    if k > 0 {
        lemma_cols_total_zero(c, n, k - 1);
    }
}

/// Reads the big-endian signed word at `off`.
fn read_i32_at(data: &[u8], off: usize) -> (v: i32)
    requires
        off + 4 <= data@.len(),
    ensures
        v == as_signed_32(be_uint(data@.skip(off as int), 4)),
{
    let n = data.len();
    let b0 = *vstd::slice::slice_index_get(data, off);
    let b1 = *vstd::slice::slice_index_get(data, off + 1);
    let b2 = *vstd::slice::slice_index_get(data, off + 2);
    let b3 = *vstd::slice::slice_index_get(data, off + 3);
    proof {
        reveal_with_fuel(be_uint, 5);
        crate::buf::lemma_be_uint_bound(data@.skip(off as int), 4);
        reveal_with_fuel(crate::buf::pow256, 5);
    }
    let u = (((b0 as u32) * 256 + (b1 as u32)) * 256 + (b2 as u32)) * 256 + (b3 as u32);
    if u >= 0x8000_0000 {
        -((0xFFFF_FFFFu32 - u) as i32) - 1
    } else {
        u as i32
    }
}


/// The signed delta stored in table cell `idx`, the table beginning at
/// `base`.
pub open spec fn spec_delta(data: Seq<u8>, base: int, idx: int) -> int {
    as_signed_32(be_uint(data.skip(base + 4 * idx), 4))
}

/// The cumulative chunk size at stripe `s`, child `k`: the row's deltas up
/// to and including column `k` added up.
pub open spec fn spec_chunk(data: Seq<u8>, base: int, n: int, s: int, k: int) -> int
    decreases k + 1,
{
    if k < 0 {
        0
    } else {
        spec_chunk(data, base, n, s, k - 1) + spec_delta(data, base, s * n + k)
    }
}

/// The chunk size of flat cell `idx`, rows laid out `n` wide.
pub open spec fn spec_chunk_at(data: Seq<u8>, base: int, n: int, idx: int) -> int {
    spec_chunk(data, base, n, idx / n, idx % n)
}

/// The payload offset where flat cell `idx` begins: all earlier cells'
/// chunks added up.
pub open spec fn spec_cell_off(data: Seq<u8>, base: int, n: int, idx: int) -> int
    decreases idx,
{
    if idx <= 0 {
        0
    } else {
        spec_cell_off(data, base, n, idx - 1) + spec_chunk_at(data, base, n, idx - 1)
    }
}

/// Every chunk is non-negative and stays within the payload, which ends at
/// `base`.
pub open spec fn spec_chunks_valid(data: Seq<u8>, base: int, n: int, cells: int) -> bool {
    forall|idx: int|
        0 <= idx < cells ==> #[trigger] spec_chunk_at(data, base, n, idx) >= 0 && spec_cell_off(
            data,
            base,
            n,
            idx,
        ) + spec_chunk_at(data, base, n, idx) <= base
}

/// Child `k`'s bytes over the first `s` stripes: its chunk of each stripe,
/// in stripe order.
pub open spec fn spec_child(data: Seq<u8>, base: int, n: int, k: int, s: int) -> Seq<u8>
    decreases s,
{
    if s <= 0 {
        Seq::empty()
    } else {
        spec_child(data, base, n, k, s - 1) + data.subrange(
            spec_cell_off(data, base, n, (s - 1) * n + k),
            spec_cell_off(data, base, n, (s - 1) * n + k) + spec_chunk_at(
                data,
                base,
                n,
                (s - 1) * n + k,
            ),
        )
    }
}

/// What a payload splits into under the declared child ids: the whole
/// payload for one child; for several, the children assembled from the
/// trailing stripe table, defined exactly when the table fits and its
/// chunks are non-negative and tile the remaining payload.
pub open spec fn spec_assemble(ids: Seq<u32>, data: Seq<u8>) -> Option<Seq<(u32, Seq<u8>)>> {
    let n = ids.len() as int;
    if n == 0 {
        Some(Seq::empty())
    } else if n == 1 {
        Some(seq![(ids[0], data)])
    } else if data.len() < 1 {
        None
    } else {
        let s_count = data.last() as int;
        if data.len() < 1 + 4 * s_count * n {
            None
        } else {
            let base = data.len() - 1 - 4 * s_count * n;
            if !spec_chunks_valid(data, base, n, s_count * n) {
                None
            } else if spec_cell_off(data, base, n, s_count * n) != base {
                None
            } else {
                Some(Seq::new(ids.len(), |k: int| (ids[k], spec_child(data, base, n, k, s_count))))
            }
        }
    }
}

/// Parses the trailing chunk table of a multi-child payload: one cumulative
/// chunk size and one starting offset per cell, and the total they cover.
/// Fails exactly when some chunk is negative or overruns the payload.
#[verifier::rlimit(100)]
fn parse_chunk_table(data: &Vec<u8>, n_children: usize, s_count: usize, payload_end: usize) -> (r:
    Result<(Vec<usize>, Vec<usize>, usize), ReadError>)
    requires
        n_children >= 2,
        data@.len() == 1 + payload_end + 4 * s_count * n_children,
    ensures
        ({
            let base = payload_end as int;
            let n = n_children as int;
            let cells = s_count as int * n;
            match r {
                Ok((chunks, offs, covered)) => {
                    &&& spec_chunks_valid(data@, base, n, cells)
                    &&& chunks@.len() == cells
                    &&& offs@.len() == cells
                    &&& (forall|idx: int|
                        0 <= idx < cells ==> (#[trigger] chunks@[idx]) == spec_chunk_at(
                            data@,
                            base,
                            n,
                            idx,
                        ) && offs@[idx] == spec_cell_off(data@, base, n, idx))
                    &&& covered == spec_cell_off(data@, base, n, cells)
                    &&& covered <= payload_end
                    &&& covered == sum_chunks(chunks@)
                    &&& (forall|idx: int|
                        0 <= idx < cells ==> #[trigger] offs@[idx] == sum_chunks(
                            chunks@.take(idx),
                        ))
                },
                Err(e) => e == ReadError::Plain(ReadErrorKind::Eof) && !spec_chunks_valid(
                    data@,
                    base,
                    n,
                    cells,
                ),
            }
        }),
{
    let ghost base = payload_end as int;
    let ghost n_g = n_children as int;
    let total = data.len();
    let table_base = payload_end;
    let mut chunk_flat: Vec<usize> = Vec::new();
    let mut offs: Vec<usize> = Vec::new();
    let mut covered: usize = 0;
    let mut s: usize = 0;
    while s < s_count
        invariant
            n_children >= 2,
            base == payload_end as int,
            n_g == n_children as int,
            table_base == payload_end,
            total == data@.len(),
            data@.len() == 1 + payload_end + 4 * s_count * n_children,
            0 <= s <= s_count,
            chunk_flat@.len() == s * n_children,
            offs@.len() == chunk_flat@.len(),
            covered <= payload_end,
            covered == sum_chunks(chunk_flat@),
            covered == spec_cell_off(data@, base, n_g, chunk_flat@.len() as int),
            forall|idx: int|
                0 <= idx < chunk_flat@.len() ==> (#[trigger] chunk_flat@[idx]) == spec_chunk_at(
                    data@,
                    base,
                    n_g,
                    idx,
                ) && offs@[idx] == spec_cell_off(data@, base, n_g, idx),
            forall|idx: int|
                0 <= idx < offs@.len() ==> #[trigger] offs@[idx] == sum_chunks(
                    chunk_flat@.take(idx),
                ),
        decreases s_count - s,
    {
        let mut running: i128 = 0;
        let mut k: usize = 0;
        while k < n_children
            invariant
                n_children >= 2,
                base == payload_end as int,
                n_g == n_children as int,
                table_base == payload_end,
                total == data@.len(),
                data@.len() == 1 + payload_end + 4 * s_count * n_children,
                0 <= s < s_count,
                0 <= k <= n_children,
                chunk_flat@.len() == s * n_children + k,
                offs@.len() == chunk_flat@.len(),
                covered <= payload_end,
                covered == sum_chunks(chunk_flat@),
                covered == spec_cell_off(data@, base, n_g, chunk_flat@.len() as int),
                running == spec_chunk(data@, base, n_g, s as int, k - 1),
                -0x8000_0000 <= running <= payload_end,
                running <= usize::MAX,
                forall|idx: int|
                    0 <= idx < chunk_flat@.len() ==> (#[trigger] chunk_flat@[idx])
                        == spec_chunk_at(data@, base, n_g, idx) && offs@[idx] == spec_cell_off(
                        data@,
                        base,
                        n_g,
                        idx,
                    ),
                forall|idx: int|
                    0 <= idx < offs@.len() ==> #[trigger] offs@[idx] == sum_chunks(
                        chunk_flat@.take(idx),
                    ),
            decreases n_children - k,
        {
            proof {
                assert(s * n_children + k < s_count * n_children && 4 * (s * n_children + k) + 4
                    <= 4 * s_count * n_children && (s * n_children + k) / (n_children as int)
                    == s as int && (s * n_children + k) % (n_children as int) == k as int) by (
                nonlinear_arith)
                    requires
                        0 <= s < s_count,
                        0 <= k < n_children,
                        n_children >= 2,
                ;
            }
            let idx = s * n_children + k;
            let delta = read_i32_at(data.as_slice(), table_base + 4 * idx);
            proof {
                assert(delta == spec_delta(data@, base, idx as int));
            }
            running = running + (delta as i128);
            proof {
                assert(running == spec_chunk(data@, base, n_g, s as int, k as int));
                assert(spec_chunk_at(data@, base, n_g, idx as int) == running);
            }
            if running < 0 {
                proof {
                    assert(!spec_chunks_valid(data@, base, n_g, s_count as int * n_g));
                }
                return Err(ReadError::eof());
            }
            if running > ((payload_end - covered) as i128) {
                proof {
                    assert(spec_cell_off(data@, base, n_g, idx as int) == covered);
                    assert(!spec_chunks_valid(data@, base, n_g, s_count as int * n_g));
                }
                return Err(ReadError::eof());
            }
            let chunk = running as usize;
            let ghost chunks0 = chunk_flat@;
            proof {
                assert(chunks0.push(chunk).drop_last() =~= chunks0);
                assert(chunks0.push(chunk).take(chunks0.len() as int) =~= chunks0);
                assert forall|idx2: int| 0 <= idx2 < chunks0.len() implies chunks0.push(
                    chunk,
                ).take(idx2) =~= chunks0.take(idx2) by {}
            }
            offs.push(covered);
            chunk_flat.push(chunk);
            covered = covered + chunk;
            k = k + 1;
        }
        proof {
            assert((s + 1) * n_children == s * n_children + n_children) by (nonlinear_arith);
        }
        s = s + 1;
    }
    proof {
        let c = chunk_flat@;
        let cells = s_count as int * n_g;
        assert(c.len() == s_count * n_children);
        assert(s_count * n_children == s_count as int * n_g) by (nonlinear_arith)
            requires
                n_g == n_children as int,
        ;
        assert forall|idx: int| 0 <= idx < cells implies #[trigger] spec_chunk_at(
            data@,
            base,
            n_g,
            idx,
        ) >= 0 && spec_cell_off(data@, base, n_g, idx) + spec_chunk_at(data@, base, n_g, idx)
            <= base by {
            lemma_sum_take_step(c, idx);
            lemma_sum_take_le(c, idx + 1);
            assert(spec_chunk_at(data@, base, n_g, idx) == c[idx]);
            assert(spec_cell_off(data@, base, n_g, idx) == sum_chunks(c.take(idx)));
        }
    }
    Ok((chunk_flat, offs, covered))
}

/// Assembles one child from the parsed chunk table: its chunk of each
/// stripe, in stripe order.
#[verifier::rlimit(100)]
#[verifier::loop_isolation(false)]
fn assemble_one_child(
    data: &Vec<u8>,
    chunk_flat: &Vec<usize>,
    offs: &Vec<usize>,
    s_count: usize,
    n_children: usize,
    payload_end: usize,
    k: usize,
) -> (buf: Vec<u8>)
    requires
        n_children >= 2,
        k < n_children,
        data@.len() == 1 + payload_end + 4 * s_count * n_children,
        chunk_flat@.len() == s_count * n_children,
        offs@.len() == chunk_flat@.len(),
        forall|idx: int|
            0 <= idx < chunk_flat@.len() ==> offs@[idx] + chunk_flat@[idx] <= payload_end,
        forall|idx: int|
            0 <= idx < chunk_flat@.len() ==> (#[trigger] chunk_flat@[idx]) == spec_chunk_at(
                data@,
                payload_end as int,
                n_children as int,
                idx,
            ) && offs@[idx] == spec_cell_off(data@, payload_end as int, n_children as int, idx),
    ensures
        buf@ == spec_child(
            data@,
            payload_end as int,
            n_children as int,
            k as int,
            s_count as int,
        ),
        buf@.len() == col_sum(chunk_flat@, n_children as int, k as int, s_count as int),
        s_count == 1 ==> buf@ == data@.subrange(
            offs@[k as int] as int,
            offs@[k as int] + chunk_flat@[k as int],
        ),
{
    let total = data.len();
    let ghost base = payload_end as int;
    let ghost n_g = n_children as int;
    let ghost c = chunk_flat@;
    let mut buf: Vec<u8> = Vec::new();
    let mut st: usize = 0;
    while st < s_count
        invariant
            0 <= st <= s_count,
            buf@.len() == col_sum(c, n_g, k as int, st as int),
            buf@ == spec_child(data@, base, n_g, k as int, st as int),
            s_count == 1 && st == 1 ==> buf@ == data@.subrange(
                offs@[k as int] as int,
                offs@[k as int] + c[k as int],
            ),
        decreases s_count - st,
    {
        proof {
            assert(st * n_children + k < s_count * n_children && 4 * (st * n_children + k) + 4 <= 4
                * s_count * n_children) by (nonlinear_arith)
                requires
                    0 <= st < s_count,
                    0 <= k < n_children,
            ;
        }
        let idx = st * n_children + k;
        let off = offs[idx];
        let chunk = chunk_flat[idx];
        let seg = slice_subrange(data.as_slice(), off, off + chunk);
        let ghost buf0 = buf@;
        buf.extend_from_slice(seg);
        st = st + 1;
        proof {
            assert(buf@ =~= buf0 + data@.subrange(off as int, off + chunk));
            assert(buf@ =~= spec_child(data@, base, n_g, k as int, st as int));
        }
    }
    buf
}

/// A child's bytes over `s` stripes are as long as its chunks added up.
proof fn lemma_child_len(
    data: Seq<u8>,
    base: int,
    n: int,
    c: Seq<usize>,
    offs: Seq<usize>,
    k: int,
    s: int,
)
    requires
        0 <= k < n,
        0 <= s,
        s * n <= c.len(),
        offs.len() == c.len(),
        base + 1 <= data.len(),
        forall|idx: int| 0 <= idx < c.len() ==> offs[idx] + c[idx] <= base,
        forall|idx: int|
            0 <= idx < c.len() ==> (#[trigger] c[idx]) == spec_chunk_at(data, base, n, idx)
                && offs[idx] == spec_cell_off(data, base, n, idx),
    ensures
        spec_child(data, base, n, k, s).len() == col_sum(c, n, k, s),
    decreases s,
{
    if s > 0 {
        assert((s - 1) * n <= (s - 1) * n + k < s * n) by (nonlinear_arith)
            requires
                0 <= k < n,
                1 <= s,
        ;
        lemma_child_len(data, base, n, c, offs, k, s - 1);
    }
}

/// The files assembled so far are as long, together, as their columns of
/// the chunk table added up.
proof fn lemma_children_sums(
    files: Seq<(u32, Vec<u8>)>,
    data: Seq<u8>,
    base: int,
    n: int,
    c: Seq<usize>,
    offs: Seq<usize>,
    s: int,
    m: int,
)
    requires
        0 <= m <= n,
        0 <= s,
        s * n <= c.len(),
        offs.len() == c.len(),
        base + 1 <= data.len(),
        files.len() == m,
        forall|j: int|
            0 <= j < m ==> (#[trigger] files[j]).1@ == spec_child(data, base, n, j, s),
        forall|idx: int| 0 <= idx < c.len() ==> offs[idx] + c[idx] <= base,
        forall|idx: int|
            0 <= idx < c.len() ==> (#[trigger] c[idx]) == spec_chunk_at(data, base, n, idx)
                && offs[idx] == spec_cell_off(data, base, n, idx),
    ensures
        sum_file_lens(files) == cols_total(c, n, s, m),
    decreases m,
{
    if m > 0 {
        assert(files.drop_last().len() == m - 1);
        lemma_children_sums(files.drop_last(), data, base, n, c, offs, s, m - 1);
        lemma_child_len(data, base, n, c, offs, m - 1, s);
    }
}

/// With a single stripe, the files assembled so far are the payload's
/// prefix: each child's one chunk follows the one before it.
proof fn lemma_concat_single_stripe(
    files: Seq<(u32, Vec<u8>)>,
    data: Seq<u8>,
    base: int,
    n: int,
    c: Seq<usize>,
    offs: Seq<usize>,
    m: int,
)
    requires
        0 <= m <= n,
        2 <= n,
        c.len() == n,
        offs.len() == c.len(),
        base + 1 <= data.len(),
        files.len() == m,
        forall|j: int|
            0 <= j < m ==> (#[trigger] files[j]).1@ == spec_child(data, base, n, j, 1),
        forall|idx: int| 0 <= idx < c.len() ==> offs[idx] + c[idx] <= base,
        forall|idx: int|
            0 <= idx < c.len() ==> #[trigger] offs[idx] == sum_chunks(c.take(idx)),
        forall|idx: int|
            0 <= idx < c.len() ==> (#[trigger] c[idx]) == spec_chunk_at(data, base, n, idx)
                && offs[idx] == spec_cell_off(data, base, n, idx),
    ensures
        concat_files(files) == data.take(sum_chunks(c.take(m))),
    decreases m,
{
    if m == 0 {
        assert(c.take(0).len() == 0);
        assert(concat_files(files) =~= data.take(0));
    } else {
        assert(files.drop_last().len() == m - 1);
        lemma_concat_single_stripe(files.drop_last(), data, base, n, c, offs, m - 1);
        lemma_sum_take_step(c, m - 1);
        let j = m - 1;
        assert(0 * n + j == j) by (nonlinear_arith);
        assert(spec_child(data, base, n, j, 0) =~= Seq::<u8>::empty());
        assert(spec_child(data, base, n, j, 1) =~= data.subrange(
            spec_cell_off(data, base, n, j),
            spec_cell_off(data, base, n, j) + spec_chunk_at(data, base, n, j),
        ));
        assert(concat_files(files) =~= data.take(sum_chunks(c.take(m))));
    }
}

/// Assembles every child from the parsed chunk table, in declared order.
#[verifier::rlimit(100)]
fn assemble_children(
    data: &Vec<u8>,
    ids: &Vec<u32>,
    chunk_flat: &Vec<usize>,
    offs: &Vec<usize>,
    s_count: usize,
    payload_end: usize,
) -> (files: Vec<(u32, Vec<u8>)>)
    requires
        ids@.len() >= 2,
        data@.len() == 1 + payload_end + 4 * s_count * ids@.len(),
        chunk_flat@.len() == s_count * ids@.len(),
        offs@.len() == chunk_flat@.len(),
        sum_chunks(chunk_flat@) == payload_end,
        forall|idx: int|
            0 <= idx < chunk_flat@.len() ==> #[trigger] offs@[idx] == sum_chunks(
                chunk_flat@.take(idx),
            ),
        forall|idx: int|
            0 <= idx < chunk_flat@.len() ==> (#[trigger] chunk_flat@[idx]) == spec_chunk_at(
                data@,
                payload_end as int,
                ids@.len() as int,
                idx,
            ) && offs@[idx] == spec_cell_off(data@, payload_end as int, ids@.len() as int, idx),
    ensures
        files@.len() == ids@.len(),
        forall|j: int| 0 <= j < files@.len() ==> (#[trigger] files@[j]).0 == ids@[j],
        forall|j: int|
            0 <= j < files@.len() ==> (#[trigger] files@[j]).1@ == spec_child(
                data@,
                payload_end as int,
                ids@.len() as int,
                j,
                s_count as int,
            ),
        sum_file_lens(files@) == payload_end,
        s_count == 1 ==> concat_files(files@) == data@.take(payload_end as int),
{
    let n_children = ids.len();
    let ghost base = payload_end as int;
    let ghost n_g = n_children as int;
    let ghost c = chunk_flat@;
    proof {
        assert forall|idx: int| 0 <= idx < c.len() implies offs@[idx] + c[idx]
            <= payload_end by {
            lemma_sum_take_step(c, idx);
            lemma_sum_take_le(c, idx + 1);
        }
    }
    let mut files: Vec<(u32, Vec<u8>)> = Vec::new();
    let mut k: usize = 0;
    while k < n_children
        invariant
            n_children == ids@.len(),
            n_children >= 2,
            base == payload_end as int,
            n_g == n_children as int,
            c == chunk_flat@,
            data@.len() == 1 + payload_end + 4 * s_count * n_children,
            c.len() == s_count * n_children,
            offs@.len() == c.len(),
            forall|idx: int| 0 <= idx < c.len() ==> offs@[idx] + c[idx] <= payload_end,
            forall|idx: int|
                0 <= idx < c.len() ==> (#[trigger] c[idx]) == spec_chunk_at(data@, base, n_g, idx)
                    && offs@[idx] == spec_cell_off(data@, base, n_g, idx),
            0 <= k <= n_children,
            files@.len() == k,
            forall|j: int| 0 <= j < k ==> (#[trigger] files@[j]).0 == ids@[j],
            forall|j: int|
                0 <= j < k ==> (#[trigger] files@[j]).1@ == spec_child(
                    data@,
                    base,
                    n_g,
                    j,
                    s_count as int,
                ),
        decreases n_children - k,
    {
        let buf = assemble_one_child(
            data,
            chunk_flat,
            offs,
            s_count,
            n_children,
            payload_end,
            k,
        );
        let id = ids[k];
        files.push((id, buf));
        k = k + 1;
    }
    proof {
        assert(s_count as int * n_g == s_count * n_children) by (nonlinear_arith)
            requires
                n_g == n_children as int,
        ;
        lemma_children_sums(
            files@,
            data@,
            base,
            n_g,
            c,
            offs@,
            s_count as int,
            n_children as int,
        );
        lemma_cols_total_flat(c, n_g, s_count as int);
        assert(c.take((s_count * n_children) as int) =~= c);
        if s_count == 1 {
            lemma_concat_single_stripe(files@, data@, base, n_g, c, offs@, n_children as int);
            assert(c.take(n_children as int) =~= c);
        }
    }
    files
}

impl Archive {
    /// Splits a decompressed payload into child files, as
    /// [`spec_assemble`] reads it. A single declared child owns the whole
    /// payload. With several children the last byte gives the stripe
    /// count, the table before it gives per-stripe chunk size deltas, and
    /// children are assembled in declared order, stripe by stripe. A table
    /// that does not fit, or a negative or overrunning chunk, fails with
    /// `Eof`; chunks that fit but do not tile the remaining payload
    /// exactly fail with `NotExhausted`.
    #[verifier::rlimit(100)]
    pub fn deserialize(metadata: &Metadata, data: Vec<u8>) -> (r: Result<Archive, ReadError>)
        requires
            metadata.child_indices@.len() == metadata.child_count,
        ensures
            r is Ok <==> spec_assemble(metadata.child_indices@, data@) is Some,
            r matches Ok(a) ==> a.index_id == metadata.index_id && a.archive_id
                == metadata.archive_id && a.files@.len() == metadata.child_indices@.len() && (
            forall|k: int|
                0 <= k < a.files@.len() ==> (#[trigger] a.files@[k]).0
                    == metadata.child_indices@[k]),
            r matches Ok(a) ==> a.files@.map_values(|f: (u32, Vec<u8>)| (f.0, f.1@))
                == spec_assemble(metadata.child_indices@, data@)->Some_0,
            r matches Ok(a) ==> (metadata.child_indices@.len() == 1 ==> a.files@[0].1@
                == data@),
            r matches Ok(a) ==> (metadata.child_indices@.len() >= 2 ==> {
                let total = data@.len();
                let s_count = data@.last() as int;
                let n = metadata.child_indices@.len() as int;
                &&& total >= 1
                &&& 1 + 4 * s_count * n <= total
                &&& sum_file_lens(a.files@) + 4 * s_count * n + 1 == total
                &&& (s_count == 1 ==> concat_files(a.files@) == data@.take(total - 1 - 4 * n))
            }),
            r is Err ==> metadata.child_indices@.len() >= 2 && ({
                let n = metadata.child_indices@.len() as int;
                if data@.len() < 1 {
                    r == Err::<Archive, ReadError>(ReadError::Plain(ReadErrorKind::Eof))
                } else {
                    let s_count = data@.last() as int;
                    if data@.len() < 1 + 4 * s_count * n {
                        r == Err::<Archive, ReadError>(ReadError::Plain(ReadErrorKind::Eof))
                    } else {
                        let base = data@.len() - 1 - 4 * s_count * n;
                        if !spec_chunks_valid(data@, base, n, s_count * n) {
                            r == Err::<Archive, ReadError>(ReadError::Plain(ReadErrorKind::Eof))
                        } else {
                            r == Err::<Archive, ReadError>(
                                ReadError::Plain(ReadErrorKind::NotExhausted),
                            )
                        }
                    }
                }
            }),
    {
        let n_children = metadata.child_indices.len();
        let index_id = metadata.index_id();
        let archive_id = metadata.archive_id();
        if n_children == 0 {
            let files: Vec<(u32, Vec<u8>)> = Vec::new();
            proof {
                assert(files@.map_values(|f: (u32, Vec<u8>)| (f.0, f.1@)) =~= spec_assemble(
                    metadata.child_indices@,
                    data@,
                )->Some_0);
            }
            return Ok(Archive { index_id, archive_id, files });
        }
        if n_children == 1 {
            let mut files: Vec<(u32, Vec<u8>)> = Vec::new();
            files.push((metadata.child_indices[0], data));
            proof {
                assert(files@.map_values(|f: (u32, Vec<u8>)| (f.0, f.1@)) =~= spec_assemble(
                    metadata.child_indices@,
                    files@[0].1@,
                )->Some_0);
            }
            return Ok(Archive { index_id, archive_id, files });
        }
        let total = data.len();
        if total < 1 {
            return Err(ReadError::eof());
        }
        let s_count = data[total - 1] as usize;
        let ghost n_g = n_children as int;
        if s_count > 0 && n_children > (total - 1) / (4 * s_count) {
            proof {
                assert(4 * (s_count as int) * n_g > total - 1) by (nonlinear_arith)
                    requires
                        s_count > 0,
                        n_children > ((total - 1) as int) / ((4 * s_count) as int),
                        n_g == n_children as int,
                        1 <= total,
                ;
            }
            return Err(ReadError::eof());
        }
        proof {
            assert(4 * (s_count as int) * n_g <= total - 1) by (nonlinear_arith)
                requires
                    s_count == 0 || (s_count > 0 && n_children <= ((total - 1) as int) / ((4
                        * s_count) as int)),
                    0 <= s_count,
                    0 < n_children,
                    n_g == n_children as int,
                    1 <= total,
            ;
        }
        let table: usize = 4 * s_count * n_children;
        let payload_end = total - 1 - table;
        let ghost base = payload_end as int;
        let (chunk_flat, offs, covered) = match parse_chunk_table(
            &data,
            n_children,
            s_count,
            payload_end,
        ) {
            Ok(v) => v,
            Err(e) => {
                return Err(e);
            },
        };
        if covered != payload_end {
            return Err(ReadError::not_exhausted());
        }

        let files = assemble_children(
            &data,
            &metadata.child_indices,
            &chunk_flat,
            &offs,
            s_count,
            payload_end,
        );
        proof {
            let n_gi = metadata.child_indices@.len() as int;
            let cells = s_count as int * n_gi;
            assert(spec_cell_off(data@, base, n_gi, cells) == payload_end as int);
            assert(spec_assemble(metadata.child_indices@, data@) matches Some(m) && m =~= files@
                .map_values(|f: (u32, Vec<u8>)| (f.0, f.1@)));
        }
        Ok(Archive { index_id, archive_id, files })
    }

    /// The archive id of this archive.
    pub fn archive_id(&self) -> (r: u32)
        ensures
            r == self.archive_id,
    {
        self.archive_id
    }

    /// The index id of this archive.
    pub fn index_id(&self) -> (r: u32)
        ensures
            r == self.index_id,
    {
        self.index_id
    }

    /// The bytes of the child with this file id, if the archive has it.
    pub fn file(&self, file_id: u32) -> (r: Option<&Vec<u8>>)
        ensures
            match r {
                Some(b) => exists|i: int|
                    0 <= i < self.files@.len() && (#[trigger] self.files@[i]).0 == file_id
                        && self.files@[i].1 == *b,
                None => forall|i: int|
                    0 <= i < self.files@.len() ==> (#[trigger] self.files@[i]).0 != file_id,
            },
    {
        let n = self.files.len();
        let mut i: usize = 0;
        while i < n
            invariant
                n == self.files@.len(),
                0 <= i <= n,
                forall|j: int| 0 <= j < i ==> (#[trigger] self.files@[j]).0 != file_id,
            decreases n - i,
        {
            if self.files[i].0 == file_id {
                return Some(&self.files[i].1);
            }
            i = i + 1;
        }
        None
    }

    /// All child files, in declared order.
    pub fn take_files(self) -> (r: Vec<(u32, Vec<u8>)>)
        ensures
            r == self.files,
    {
        self.files
    }
}

} // verus!
