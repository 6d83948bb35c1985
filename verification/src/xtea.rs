//! The 64-bit block cipher used by encrypted gzip envelopes: 32 rounds in
//! the standard formulation, applied independently to each aligned 8-byte
//! block, residual tail bytes passed through unchanged.

use crate::buf::{be_uint, pow256};
use vstd::prelude::*;
use vstd::wrapping::u32_specs;

verus! {

/// The round constant of the cipher.
pub const XTEA_DELTA: u32 = 0x9E37_79B9;

/// The initial sum when deciphering: the round constant added 32 times,
/// wrapping.
pub const XTEA_DECIPHER_SUM: u32 = 0xC6EF_3720;

/// A 128-bit key, as four big-endian 32-bit words.
#[derive(Clone, Copy, Debug)]
pub struct Xtea {
    /// The four key words.
    pub key: [u32; 4],
}

/// One decipher round: undoes one round of the cipher, stepping the sum
/// back by the round constant.
pub open spec fn spec_xtea_round(v0: u32, v1: u32, sum: u32, key: [u32; 4]) -> (u32, u32, u32) {
    let nv1 = u32_specs::wrapping_sub(
        v1,
        u32_specs::wrapping_add((v0 << 4) ^ (v0 >> 5), v0) ^ u32_specs::wrapping_add(
            sum,
            key@[(((sum >> 11) & 3) as int)],
        ),
    );
    let nsum = u32_specs::wrapping_sub(sum, XTEA_DELTA);
    let nv0 = u32_specs::wrapping_sub(
        v0,
        u32_specs::wrapping_add((nv1 << 4) ^ (nv1 >> 5), nv1) ^ u32_specs::wrapping_add(
            nsum,
            key@[((nsum & 3) as int)],
        ),
    );
    (nv0, nv1, nsum)
}

/// `n` decipher rounds applied in sequence.
pub open spec fn spec_xtea_rounds(v0: u32, v1: u32, sum: u32, key: [u32; 4], n: nat) -> (
    u32,
    u32,
    u32,
)
    decreases n,
{
    if n == 0 {
        (v0, v1, sum)
    } else {
        let (a, b, s) = spec_xtea_round(v0, v1, sum, key);
        spec_xtea_rounds(a, b, s, key, (n - 1) as nat)
    }
}

/// One 8-byte block deciphered: 32 rounds down from the decipher sum.
pub open spec fn spec_xtea_decipher_block(v0: u32, v1: u32, key: [u32; 4]) -> (u32, u32) {
    let (a, b, s) = spec_xtea_rounds(v0, v1, XTEA_DECIPHER_SUM, key, 32);
    (a, b)
}

/// The four bytes at `off` read as a big-endian 32-bit word.
pub open spec fn be32_at(s: Seq<u8>, off: int) -> u32 {
    be_uint(s.skip(off), 4) as u32
}

/// Byte `p` of `w`, most significant first.
pub open spec fn byte_of_u32(w: u32, p: int) -> u8 {
    (((w as int) / pow256(3 - p)) % 256) as u8
}

/// Byte `i` of the deciphered buffer: part of a deciphered aligned block,
/// or the original byte in the residual tail.
pub open spec fn spec_xtea_decrypt_byte(s: Seq<u8>, key: [u32; 4], i: int) -> u8 {
    let b = i / 8;
    let p = i % 8;
    if b < s.len() / 8 {
        let (w0, w1) = spec_xtea_decipher_block(be32_at(s, 8 * b), be32_at(s, 8 * b + 4), key);
        if p < 4 {
            byte_of_u32(w0, p)
        } else {
            byte_of_u32(w1, p - 4)
        }
    } else {
        s[i]
    }
}

/// The whole buffer deciphered block by block, the tail unchanged.
pub open spec fn spec_xtea_decrypt(s: Seq<u8>, key: [u32; 4]) -> Seq<u8> {
    Seq::new(s.len(), |i: int| spec_xtea_decrypt_byte(s, key, i))
}

impl Xtea {
    /// Deciphers each aligned 8-byte block of `data` independently with
    /// `xtea`, passing residual tail bytes through unchanged.
    pub fn decrypt(data: &[u8], xtea: Xtea) -> (r: Vec<u8>)
        ensures
            r@ == spec_xtea_decrypt(data@, xtea.key),
    {
        let n = data.len();
        let nblocks = n / 8;
        proof {
            assert(8 * nblocks <= n) by (nonlinear_arith)
                requires
                    nblocks == n / 8,
            ;
        }
        let mut out: Vec<u8> = Vec::new();
        let mut j: usize = 0;
        while j < nblocks
            invariant
                nblocks == n / 8,
                n == data@.len(),
                8 * nblocks <= n,
                0 <= j <= nblocks,
                out@.len() == 8 * j,
                out@ == spec_xtea_decrypt(data@, xtea.key).take(8 * j),
            decreases nblocks - j,
        {
            let off = 8 * j;
            let v0 = compose_be32(data, off);
            let v1 = compose_be32(data, off + 4);
            let (w0, w1) = decipher_block(v0, v1, &xtea);
            proof {
                assert(data@.skip(off as int).skip(4) =~= data@.skip(off + 4));
            }
            push_be32(&mut out, w0);
            push_be32(&mut out, w1);
            j = j + 1;
            proof {
                let s = data@;
                let key = xtea.key;
                let full = spec_xtea_decrypt(s, key);
                assert forall|i: int| 8 * (j - 1) <= i < 8 * j implies full[i] == out@[i] by {
                    assert(i / 8 == j - 1 && i % 8 == i - 8 * (j - 1)) by (nonlinear_arith)
                        requires
                            8 * (j - 1) <= i < 8 * j,
                    ;
                }
                assert(out@ =~= full.take(8 * j));
            }
        }
        let mut i: usize = 8 * nblocks;
        while i < n
            invariant
                nblocks == n / 8,
                n == data@.len(),
                8 * nblocks <= i <= n,
                out@.len() == i,
                out@ == spec_xtea_decrypt(data@, xtea.key).take(i as int),
            decreases n - i,
        {
            let b = data[i];
            out.push(b);
            i = i + 1;
            proof {
                assert((i - 1) / 8 >= nblocks) by (nonlinear_arith)
                    requires
                        8 * nblocks <= i - 1,
                        nblocks == n / 8,
                ;
                assert(out@ =~= spec_xtea_decrypt(data@, xtea.key).take(i as int));
            }
        }
        proof {
            assert(out@ =~= spec_xtea_decrypt(data@, xtea.key));
        }
        out
    }
}

/// Reads the big-endian 32-bit word at `off`.
fn compose_be32(data: &[u8], off: usize) -> (v: u32)
    requires
        off + 4 <= data@.len(),
    ensures
        v == be32_at(data@, off as int),
{
    let n = data.len();
    let b0 = *vstd::slice::slice_index_get(data, off);
    let b1 = *vstd::slice::slice_index_get(data, off + 1);
    let b2 = *vstd::slice::slice_index_get(data, off + 2);
    let b3 = *vstd::slice::slice_index_get(data, off + 3);
    proof {
        reveal_with_fuel(be_uint, 5);
        crate::buf::lemma_be_uint_bound(data@.skip(off as int), 4);
        reveal_with_fuel(pow256, 5);
    }
    (((b0 as u32) * 256 + (b1 as u32)) * 256 + (b2 as u32)) * 256 + (b3 as u32)
}

/// Appends the four big-endian bytes of `w`.
fn push_be32(out: &mut Vec<u8>, w: u32)
    ensures
        final(out)@ == old(out)@ + seq![
            byte_of_u32(w, 0),
            byte_of_u32(w, 1),
            byte_of_u32(w, 2),
            byte_of_u32(w, 3),
        ],
{
    proof {
        reveal_with_fuel(pow256, 5);
    }
    out.push((w / 0x100_0000) as u8);
    out.push(((w / 0x1_0000) % 256) as u8);
    out.push(((w / 256) % 256) as u8);
    out.push((w % 256) as u8);
    proof {
        assert(final(out)@ =~= old(out)@ + seq![
            byte_of_u32(w, 0),
            byte_of_u32(w, 1),
            byte_of_u32(w, 2),
            byte_of_u32(w, 3),
        ]);
    }
}

/// Deciphers one block: 32 rounds down from the decipher sum.
fn decipher_block(v0: u32, v1: u32, xtea: &Xtea) -> (r: (u32, u32))
    ensures
        r == spec_xtea_decipher_block(v0, v1, xtea.key),
{
    let mut a = v0;
    let mut b = v1;
    let mut sum: u32 = XTEA_DECIPHER_SUM;
    let mut round: usize = 0;
    while round < 32
        invariant
            0 <= round <= 32,
            (a, b, sum) == spec_xtea_rounds(v0, v1, XTEA_DECIPHER_SUM, xtea.key, round as nat),
        decreases 32 - round,
    {
        let i1 = ((sum >> 11) & 3) as usize;
        proof {
            assert((sum >> 11) & 3 < 4) by (bit_vector);
        }
        b = b.wrapping_sub(((a << 4) ^ (a >> 5)).wrapping_add(a) ^ sum.wrapping_add(xtea.key[i1]));
        sum = sum.wrapping_sub(XTEA_DELTA);
        let i2 = (sum & 3) as usize;
        proof {
            assert(sum & 3 < 4) by (bit_vector);
        }
        a = a.wrapping_sub(((b << 4) ^ (b >> 5)).wrapping_add(b) ^ sum.wrapping_add(xtea.key[i2]));
        round = round + 1;
        proof {
            lemma_xtea_rounds_unfold_back(v0, v1, XTEA_DECIPHER_SUM, xtea.key, round as nat);
        }
    }
    (a, b)
}

/// Peeling one round off the end of a round sequence.
proof fn lemma_xtea_rounds_unfold_back(v0: u32, v1: u32, sum: u32, key: [u32; 4], n: nat)
    requires
        n >= 1,
    ensures
        spec_xtea_rounds(v0, v1, sum, key, n) == ({
            let (a, b, s) = spec_xtea_rounds(v0, v1, sum, key, (n - 1) as nat);
            spec_xtea_round(a, b, s, key)
        }),
    decreases n,
{
    reveal_with_fuel(spec_xtea_rounds, 2);
    if n > 1 {
        let (a, b, s) = spec_xtea_round(v0, v1, sum, key);
        lemma_xtea_rounds_unfold_back(a, b, s, key, (n - 1) as nat);
    }
}

} // verus!
