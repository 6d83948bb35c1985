//! The binary read layer: a cursor over in-memory bytes with the typed
//! extraction primitives and domain codecs used to decode cache data, and
//! the location-free read errors they raise.

use vstd::prelude::*;

verus! {

/// The primary kind of a failed read.
#[derive(Debug)]
pub enum ReadErrorKind {
    /// Fewer bytes remained than the read required.
    Eof,
    /// No terminator byte was found before the end of the buffer.
    NotNulTerminated,
    /// The terminating opcode was reached while bytes remained.
    NotExhausted,
    /// The opcode has no decoder.
    OpcodeNotImplemented(u8),
    /// The opcode was already decoded once in the same record.
    DuplicateOpcode(u8),
}

/// A failed read: a primary kind wrapped in zero or more context frames,
/// prepended as the error bubbles out of nested decoders.
#[derive(Debug)]
pub enum ReadError {
    /// The innermost failure.
    Plain(ReadErrorKind),
    /// A numeric id (usually the archive id being decoded) around an error.
    ContextId(u32, Box<ReadError>),
    /// A free-form label around an error.
    Bubbled(String, Box<ReadError>),
    /// The decode trail attached at the outermost decode boundary:
    /// the opcodes read so far, the unread remainder, and the partial
    /// decode rendered as text.
    DecodeContext(Vec<u8>, Vec<u8>, String, Box<ReadError>),
}

impl ReadError {
    /// The primary kind at the bottom of the context chain.
    pub open spec fn root_kind(&self) -> ReadErrorKind
        decreases self,
    {
        match self {
            ReadError::Plain(kind) => *kind,
            ReadError::ContextId(_, inner) => inner.root_kind(),
            ReadError::Bubbled(_, inner) => inner.root_kind(),
            ReadError::DecodeContext(_, _, _, inner) => inner.root_kind(),
        }
    }

    /// An end-of-file error.
    pub fn eof() -> (r: ReadError)
        ensures
            r == ReadError::Plain(ReadErrorKind::Eof),
    {
        ReadError::Plain(ReadErrorKind::Eof)
    }

    /// A missing-terminator error.
    pub fn not_nul_terminated() -> (r: ReadError)
        ensures
            r == ReadError::Plain(ReadErrorKind::NotNulTerminated),
    {
        ReadError::Plain(ReadErrorKind::NotNulTerminated)
    }

    /// An unknown-opcode error.
    pub fn opcode_not_implemented(opcode: u8) -> (r: ReadError)
        ensures
            r == ReadError::Plain(ReadErrorKind::OpcodeNotImplemented(opcode)),
    {
        ReadError::Plain(ReadErrorKind::OpcodeNotImplemented(opcode))
    }

    /// A trailing-bytes error.
    pub fn not_exhausted() -> (r: ReadError)
        ensures
            r == ReadError::Plain(ReadErrorKind::NotExhausted),
    {
        ReadError::Plain(ReadErrorKind::NotExhausted)
    }

    /// A repeated-opcode error.
    pub fn duplicate_opcode(opcode: u8) -> (r: ReadError)
        ensures
            r == ReadError::Plain(ReadErrorKind::DuplicateOpcode(opcode)),
    {
        ReadError::Plain(ReadErrorKind::DuplicateOpcode(opcode))
    }

    /// Wraps `self` in a free-form label.
    pub fn add_context(self, ctx: String) -> (r: ReadError)
        ensures
            r == ReadError::Bubbled(ctx, Box::new(self)),
    {
        ReadError::Bubbled(ctx, Box::new(self))
    }

    /// Wraps `self` in a numeric id.
    pub fn add_context_id(self, ctx: u32) -> (r: ReadError)
        ensures
            r == ReadError::ContextId(ctx, Box::new(self)),
    {
        ReadError::ContextId(ctx, Box::new(self))
    }

    /// Wraps `self` in a decode trail: the opcodes read so far, the unread
    /// remainder of the buffer, and the partially decoded record as text.
    pub fn add_decode_context(self, opcodes: Vec<u8>, remainder: Vec<u8>, parsed: String) -> (r:
        ReadError)
        ensures
            r == ReadError::DecodeContext(opcodes, remainder, parsed, Box::new(self)),
    {
        ReadError::DecodeContext(opcodes, remainder, parsed, Box::new(self))
    }
}

/// The value of the first `n` bytes of `s` read as a big-endian unsigned
/// integer.
pub open spec fn be_uint(s: Seq<u8>, n: int) -> int
    decreases n,
{
    if n <= 0 {
        0
    } else {
        be_uint(s, n - 1) * 256 + s[n - 1]
    }
}

/// 256 to the power `n`: one more than the largest `n`-byte value.
pub open spec fn pow256(n: int) -> int
    decreases n,
{
    if n <= 0 {
        1
    } else {
        256 * pow256(n - 1)
    }
}

/// A big-endian value fits in as many bytes as were read.
pub proof fn lemma_be_uint_bound(s: Seq<u8>, n: int)
    requires
        0 <= n <= s.len(),
    ensures
        0 <= be_uint(s, n) < pow256(n),
    decreases n,
{
    if n > 0 {
        lemma_be_uint_bound(s, n - 1);
    }
}

/// A big-endian reading is never negative, whatever bytes it read.
pub proof fn lemma_be_uint_nonneg(s: Seq<u8>, n: int)
    ensures
        be_uint(s, n) >= 0,
    decreases n,
{
    if n > 0 {
        lemma_be_uint_nonneg(s, n - 1);
    }
}

/// The signed reading of a 32-bit two's-complement value.
pub open spec fn as_signed_32(v: int) -> int {
    if v < 0x8000_0000 {
        v
    } else {
        v - 0x1_0000_0000
    }
}

/// The signed reading of an 8-bit two's-complement value.
pub open spec fn as_signed_8(v: int) -> int {
    if v < 0x80 {
        v
    } else {
        v - 0x100
    }
}

/// What an unsigned smart decodes to at the head of `s`: the value and the
/// consumed length, or nothing when the bytes end too soon. One byte carries
/// values below `0x80`; two bytes carry the rest, high byte offset by `0x80`.
pub open spec fn spec_unsigned_smart(s: Seq<u8>) -> Option<(u16, int)> {
    if s.len() < 1 {
        None
    } else if s[0] < 0x80 {
        Some((s[0] as u16, 1))
    } else if s.len() < 2 {
        None
    } else {
        Some((((s[0] - 0x80) * 256 + s[1]) as u16, 2))
    }
}

/// The one- or two-byte encoding read by [`spec_unsigned_smart`].
pub open spec fn spec_encode_unsigned_smart(x: u16) -> Seq<u8> {
    if x < 0x80 {
        seq![x as u8]
    } else {
        seq![(x / 256 + 0x80) as u8, (x % 256) as u8]
    }
}

/// What a smart32 decodes to at the head of `s`. A set high bit selects a
/// four-byte value with the high bit masked off; otherwise two bytes follow,
/// where `0x7FFF` is the absence sentinel.
pub open spec fn spec_smart32(s: Seq<u8>) -> Option<(Option<u32>, int)> {
    if s.len() < 1 {
        None
    } else if s[0] >= 0x80 {
        if s.len() < 4 {
            None
        } else {
            Some((Some((be_uint(s, 4) - 0x8000_0000) as u32), 4))
        }
    } else {
        if s.len() < 2 {
            None
        } else if be_uint(s, 2) == 0x7FFF {
            Some((None, 2))
        } else {
            Some((Some(be_uint(s, 2) as u32), 2))
        }
    }
}

/// The encoding read by [`spec_smart32`]: the two-byte sentinel for absence,
/// or the four-byte long form with the high bit set.
pub open spec fn spec_encode_smart32(x: Option<u32>) -> Seq<u8> {
    match x {
        None => seq![0x7Fu8, 0xFFu8],
        Some(v) => seq![
            (v / 0x100_0000 + 0x80) as u8,
            ((v / 0x1_0000) % 256) as u8,
            ((v / 256) % 256) as u8,
            (v % 256) as u8,
        ],
    }
}

/// What a decrement-smart decodes to: an unsigned smart less one, absent when
/// the raw value was zero.
pub open spec fn spec_decr_smart(s: Seq<u8>) -> Option<(Option<u16>, int)> {
    match spec_unsigned_smart(s) {
        None => None,
        Some((v, n)) => if v == 0 {
            Some((None, n))
        } else {
            Some((Some((v - 1) as u16), n))
        },
    }
}

/// What a run of accumulating smarts decodes to, starting from `acc`: each
/// `0x7FFF` adds and continues, any other value adds and terminates. Nothing
/// when the bytes end too soon or the sum leaves `u32`.
pub open spec fn spec_smarts(s: Seq<u8>, acc: u32) -> Option<(u32, int)>
    decreases s.len(),
{
    match spec_unsigned_smart(s) {
        None => None,
        Some((v, n)) => if v == 0x7FFF {
            if acc + 0x7FFF > u32::MAX {
                None
            } else {
                match spec_smarts(s.skip(n), (acc + 0x7FFF) as u32) {
                    None => None,
                    Some((w, m)) => Some((w, n + m)),
                }
            }
        } else {
            if acc + v > u32::MAX {
                None
            } else {
                Some(((acc + v) as u32, n))
            }
        },
    }
}

/// An `Option<u16>` widened pointwise to `Option<u32>`.
pub open spec fn widen_opt(o: Option<u16>) -> Option<u32> {
    match o {
        None => None,
        Some(x) => Some(x as u32),
    }
}

/// What a masked table decodes to under `mask`: one entry per mask bit,
/// least-significant first, stopping at the highest set bit. A set bit reads
/// a `(smart32, decr_smart)` pair; a clear bit yields an absent pair.
pub open spec fn spec_masked(s: Seq<u8>, mask: u8) -> Option<
    (Seq<(Option<u32>, Option<u32>)>, int),
>
    decreases mask,
{
    if mask == 0 {
        Some((Seq::empty(), 0))
    } else if mask % 2 == 1 {
        match spec_smart32(s) {
            None => None,
            Some((v1, n1)) => match spec_decr_smart(s.skip(n1)) {
                None => None,
                Some((v2, n2)) => match spec_masked(s.skip(n1 + n2), mask / 2) {
                    None => None,
                    Some((tail, m)) => Some((seq![(v1, widen_opt(v2))] + tail, n1 + n2 + m)),
                },
            },
        }
    } else {
        match spec_masked(s, mask / 2) {
            None => None,
            Some((tail, m)) => Some(
                (seq![(Option::<u32>::None, Option::<u32>::None)] + tail, m),
            ),
        }
    }
}

/// What a masked table read decodes to, mask byte included.
pub open spec fn spec_masked_data(s: Seq<u8>) -> Option<(Seq<(Option<u32>, Option<u32>)>, int)> {
    if s.len() < 1 {
        None
    } else {
        match spec_masked(s.skip(1), s[0]) {
            None => None,
            Some((l, n)) => Some((l, n + 1)),
        }
    }
}

/// The number of entries a masked table holds under `mask`: the index of the
/// highest set bit, plus one.
pub open spec fn mask_len(mask: u8) -> int
    decreases mask,
{
    if mask == 0 {
        0
    } else {
        1 + mask_len(mask / 2)
    }
}

/// Bit `i` of `mask`, as by right-shifting `i` times.
pub open spec fn mask_bit(mask: u8, i: int) -> int
    decreases i,
{
    if i <= 0 {
        (mask % 2) as int
    } else {
        mask_bit(mask / 2, i - 1)
    }
}

/// What a terminated byte string decodes to: the bytes before the first
/// `term`, consuming the terminator too; nothing when no terminator remains.
pub open spec fn spec_terminated(s: Seq<u8>, term: u8) -> Option<(Seq<u8>, int)> {
    match s.index_of_first(term) {
        None => None,
        Some(i) => Some((s.take(i), i + 1)),
    }
}

/// Bytes interpreted as Latin-1: each byte is one code point.
pub open spec fn latin1(s: Seq<u8>) -> Seq<char> {
    s.map_values(|b: u8| b as char)
}

/// A cursor over an in-memory byte source. Reads advance the cursor by
/// exactly the consumed length; failing checked reads leave it unchanged.
pub struct Buffer {
    /// The underlying byte source.
    pub data: Vec<u8>,
    /// The cursor: how many bytes have been consumed.
    pub pos: usize,
}

impl Buffer {
    /// The cursor never passes the end of the data.
    pub open spec fn wf(&self) -> bool {
        self.pos <= self.data@.len()
    }

    /// The bytes not yet consumed.
    pub open spec fn rem(&self) -> Seq<u8> {
        self.data@.subrange(self.pos as int, self.data@.len() as int)
    }

    /// True when `other` is `self` advanced by `n` bytes over the same data.
    pub open spec fn advanced(&self, other: Buffer, n: int) -> bool {
        &&& other.data == self.data
        &&& other.pos == self.pos + n
    }

    /// A cursor at the start of `data`.
    pub fn new(data: Vec<u8>) -> (r: Buffer)
        ensures
            r.wf(),
            r.rem() == data@,
    {
        let r = Buffer { data, pos: 0 };
        proof {
            assert(r.rem() =~= r.data@);
        }
        r
    }

    /// How many bytes remain.
    pub fn remaining(&self) -> (n: usize)
        requires
            self.wf(),
        ensures
            n == self.rem().len(),
    {
        self.data.len() - self.pos
    }

    /// Reads one unsigned byte, or fails with `Eof` leaving the cursor
    /// unchanged.
    pub fn try_get_u8(&mut self) -> (r: Result<u8, ReadError>)
        requires
            old(self).wf(),
        ensures
            final(self).wf(),
            old(self).rem().len() >= 1 ==> (r matches Ok(v) && v == old(self).rem()[0] && old(
                self,
            ).advanced(*final(self), 1)),
            old(self).rem().len() < 1 ==> r == Err::<u8, ReadError>(
                ReadError::Plain(ReadErrorKind::Eof),
            ) && *final(self) == *old(self),
    {
        if self.pos < self.data.len() {
            let v = self.data[self.pos];
            self.pos = self.pos + 1;
            Ok(v)
        } else {
            Err(ReadError::eof())
        }
    }

    /// Reads one signed byte, or fails with `Eof` leaving the cursor
    /// unchanged.
    pub fn try_get_i8(&mut self) -> (r: Result<i8, ReadError>)
        requires
            old(self).wf(),
        ensures
            final(self).wf(),
            old(self).rem().len() >= 1 ==> (r matches Ok(v) && v == as_signed_8(
                old(self).rem()[0] as int,
            ) && old(self).advanced(*final(self), 1)),
            old(self).rem().len() < 1 ==> r == Err::<i8, ReadError>(
                ReadError::Plain(ReadErrorKind::Eof),
            ) && *final(self) == *old(self),
    {
        let b = self.try_get_u8()?;
        if b >= 0x80 {
            Ok(-((255u8 - b) as i8) - 1)
        } else {
            Ok(b as i8)
        }
    }

    /// Reads two bytes as a big-endian unsigned integer, or fails with `Eof`
    /// leaving the cursor unchanged.
    pub fn try_get_u16(&mut self) -> (r: Result<u16, ReadError>)
        requires
            old(self).wf(),
        ensures
            final(self).wf(),
            old(self).rem().len() >= 2 ==> (r matches Ok(v) && v == be_uint(old(self).rem(), 2)
                && old(self).advanced(*final(self), 2)),
            old(self).rem().len() < 2 ==> r == Err::<u16, ReadError>(
                ReadError::Plain(ReadErrorKind::Eof),
            ) && *final(self) == *old(self),
    {
        if self.data.len() - self.pos >= 2 {
            let b0 = self.data[self.pos];
            let b1 = self.data[self.pos + 1];
            self.pos = self.pos + 2;
            proof {
                reveal_with_fuel(be_uint, 3);
            }
            Ok((b0 as u16) * 256 + (b1 as u16))
        } else {
            Err(ReadError::eof())
        }
    }

    /// Reads four bytes as a big-endian unsigned integer, or fails with `Eof`
    /// leaving the cursor unchanged.
    pub fn try_get_u32(&mut self) -> (r: Result<u32, ReadError>)
        requires
            old(self).wf(),
        ensures
            final(self).wf(),
            old(self).rem().len() >= 4 ==> (r matches Ok(v) && v == be_uint(old(self).rem(), 4)
                && old(self).advanced(*final(self), 4)),
            old(self).rem().len() < 4 ==> r == Err::<u32, ReadError>(
                ReadError::Plain(ReadErrorKind::Eof),
            ) && *final(self) == *old(self),
    {
        if self.data.len() - self.pos >= 4 {
            let b0 = self.data[self.pos];
            let b1 = self.data[self.pos + 1];
            let b2 = self.data[self.pos + 2];
            let b3 = self.data[self.pos + 3];
            self.pos = self.pos + 4;
            proof {
                reveal_with_fuel(be_uint, 5);
            }
            Ok((((b0 as u32) * 256 + (b1 as u32)) * 256 + (b2 as u32)) * 256 + (b3 as u32))
        } else {
            Err(ReadError::eof())
        }
    }

    /// Reads four bytes as a big-endian signed integer, or fails with `Eof`
    /// leaving the cursor unchanged.
    pub fn try_get_i32(&mut self) -> (r: Result<i32, ReadError>)
        requires
            old(self).wf(),
        ensures
            final(self).wf(),
            old(self).rem().len() >= 4 ==> (r matches Ok(v) && v == as_signed_32(
                be_uint(old(self).rem(), 4),
            ) && old(self).advanced(*final(self), 4)),
            old(self).rem().len() < 4 ==> r == Err::<i32, ReadError>(
                ReadError::Plain(ReadErrorKind::Eof),
            ) && *final(self) == *old(self),
    {
        let u = self.try_get_u32()?;
        if u >= 0x8000_0000 {
            Ok(-((0xFFFF_FFFFu32 - u) as i32) - 1)
        } else {
            Ok(u as i32)
        }
    }

    /// Reads `nbytes` bytes (at most eight) as a big-endian unsigned integer,
    /// or fails with `Eof` leaving the cursor unchanged.
    pub fn try_get_uint(&mut self, nbytes: usize) -> (r: Result<u64, ReadError>)
        requires
            old(self).wf(),
            1 <= nbytes <= 8,
        ensures
            final(self).wf(),
            old(self).rem().len() >= nbytes ==> (r matches Ok(v) && v == be_uint(
                old(self).rem(),
                nbytes as int,
            ) && old(self).advanced(*final(self), nbytes as int)),
            old(self).rem().len() < nbytes ==> r == Err::<u64, ReadError>(
                ReadError::Plain(ReadErrorKind::Eof),
            ) && *final(self) == *old(self),
    {
        if self.data.len() - self.pos < nbytes {
            return Err(ReadError::eof());
        }
        let ghost start = *self;
        let mut value: u64 = 0;
        let mut i: usize = 0;
        while i < nbytes
            invariant
                self.wf(),
                start.advanced(*self, i as int),
                0 <= i <= nbytes <= 8,
                start.rem().len() >= nbytes,
                value == be_uint(start.rem(), i as int),
                value < pow256(i as int),
            decreases nbytes - i,
        {
            let data_len = self.data.len();
            proof {
                reveal_with_fuel(pow256, 9);
                assert(start.rem().len() == start.data@.len() - start.pos);
                assert(self.pos < data_len);
            }
            let b = self.data[self.pos];
            value = value * 256 + (b as u64);
            self.pos = self.pos + 1;
            i = i + 1;
            proof {
                assert(start.rem()[i - 1] == b);
            }
        }
        Ok(value)
    }

    /// Reads one unsigned byte.
    pub fn get_u8(&mut self) -> (v: u8)
        requires
            old(self).wf(),
            old(self).rem().len() >= 1,
        ensures
            final(self).wf(),
            v == old(self).rem()[0],
            old(self).advanced(*final(self), 1),
    {
        let data_len = self.data.len();
        proof {
            assert(old(self).rem().len() == data_len - self.pos);
        }
        let v = self.data[self.pos];
        self.pos = self.pos + 1;
        v
    }

    /// Reads one signed byte.
    pub fn get_i8(&mut self) -> (v: i8)
        requires
            old(self).wf(),
            old(self).rem().len() >= 1,
        ensures
            final(self).wf(),
            v == as_signed_8(old(self).rem()[0] as int),
            old(self).advanced(*final(self), 1),
    {
        self.try_get_i8().unwrap()
    }

    /// Reads two bytes as a big-endian unsigned integer.
    pub fn get_u16(&mut self) -> (v: u16)
        requires
            old(self).wf(),
            old(self).rem().len() >= 2,
        ensures
            final(self).wf(),
            v == be_uint(old(self).rem(), 2),
            old(self).advanced(*final(self), 2),
    {
        self.try_get_u16().unwrap()
    }

    /// Reads four bytes as a big-endian unsigned integer.
    pub fn get_u32(&mut self) -> (v: u32)
        requires
            old(self).wf(),
            old(self).rem().len() >= 4,
        ensures
            final(self).wf(),
            v == be_uint(old(self).rem(), 4),
            old(self).advanced(*final(self), 4),
    {
        self.try_get_u32().unwrap()
    }

    /// Reads four bytes as a big-endian signed integer.
    pub fn get_i32(&mut self) -> (v: i32)
        requires
            old(self).wf(),
            old(self).rem().len() >= 4,
        ensures
            final(self).wf(),
            v == as_signed_32(be_uint(old(self).rem(), 4)),
            old(self).advanced(*final(self), 4),
    {
        self.try_get_i32().unwrap()
    }

    /// Reads `nbytes` bytes (at most eight) as a big-endian unsigned integer.
    pub fn get_uint(&mut self, nbytes: usize) -> (v: u64)
        requires
            old(self).wf(),
            1 <= nbytes <= 8,
            old(self).rem().len() >= nbytes,
        ensures
            final(self).wf(),
            v == be_uint(old(self).rem(), nbytes as int),
            old(self).advanced(*final(self), nbytes as int),
    {
        self.try_get_uint(nbytes).unwrap()
    }

    /// Reads a fixed-length run of bytes, or fails with `Eof` leaving the
    /// cursor unchanged.
    pub fn try_get_bytes(&mut self, n: usize) -> (r: Result<Vec<u8>, ReadError>)
        requires
            old(self).wf(),
        ensures
            final(self).wf(),
            old(self).rem().len() >= n ==> (r matches Ok(v) && v@ == old(self).rem().take(n as int)
                && old(self).advanced(*final(self), n as int)),
            old(self).rem().len() < n ==> r == Err::<Vec<u8>, ReadError>(
                ReadError::Plain(ReadErrorKind::Eof),
            ) && *final(self) == *old(self),
    {
        if self.data.len() - self.pos >= n {
            Ok(self.get_bytes(n))
        } else {
            Err(ReadError::eof())
        }
    }

    /// Reads a fixed-length run of bytes.
    pub fn get_bytes(&mut self, n: usize) -> (v: Vec<u8>)
        requires
            old(self).wf(),
            old(self).rem().len() >= n,
        ensures
            final(self).wf(),
            v@ == old(self).rem().take(n as int),
            old(self).advanced(*final(self), n as int),
    {
        let data_len = self.data.len();
        proof {
            assert(old(self).rem().len() == data_len - self.pos);
        }
        let s = vstd::slice::slice_subrange(self.data.as_slice(), self.pos, self.pos + n);
        let v = vstd::slice::slice_to_vec(s);
        self.pos = self.pos + n;
        proof {
            assert(v@ =~= old(self).rem().take(n as int));
        }
        v
    }

    /// Reads three bytes, returning a `[red, green, blue]` array.
    pub fn get_rgb(&mut self) -> (v: [u8; 3])
        requires
            old(self).wf(),
            old(self).rem().len() >= 3,
        ensures
            final(self).wf(),
            v@ == old(self).rem().take(3),
            old(self).advanced(*final(self), 3),
    {
        let r = self.get_u8();
        let g = self.get_u8();
        let b = self.get_u8();
        let v = [r, g, b];
        proof {
            assert(v@ =~= old(self).rem().take(3));
        }
        v
    }

    /// Reads one byte, returning its eight bitflags least-significant first.
    pub fn get_bitflags(&mut self) -> (v: [bool; 8])
        requires
            old(self).wf(),
            old(self).rem().len() >= 1,
        ensures
            final(self).wf(),
            old(self).advanced(*final(self), 1),
            ({
                let flags = old(self).rem()[0];
                &&& v@ == seq![
                    flags & 0x1 != 0,
                    flags & 0x2 != 0,
                    flags & 0x4 != 0,
                    flags & 0x8 != 0,
                    flags & 0x10 != 0,
                    flags & 0x20 != 0,
                    flags & 0x40 != 0,
                    flags & 0x80 != 0,
                ]
            }),
    {
        let flags = self.get_u8();
        let v = [
            flags & 0x1 != 0,
            flags & 0x2 != 0,
            flags & 0x4 != 0,
            flags & 0x8 != 0,
            flags & 0x10 != 0,
            flags & 0x20 != 0,
            flags & 0x40 != 0,
            flags & 0x80 != 0,
        ];
        proof {
            let flags_g = old(self).rem()[0];
            assert(v@ =~= seq![
                flags_g & 0x1 != 0,
                flags_g & 0x2 != 0,
                flags_g & 0x4 != 0,
                flags_g & 0x8 != 0,
                flags_g & 0x10 != 0,
                flags_g & 0x20 != 0,
                flags_g & 0x40 != 0,
                flags_g & 0x80 != 0,
            ]);
        }
        v
    }

    /// Reads two obfuscated bytes. The obfuscation scheme is unspecified, so
    /// the value is returned as read.
    pub fn try_get_masked_index(&mut self) -> (r: Result<u16, ReadError>)
        requires
            old(self).wf(),
        ensures
            final(self).wf(),
            old(self).rem().len() >= 2 ==> (r matches Ok(v) && v == be_uint(old(self).rem(), 2)
                && old(self).advanced(*final(self), 2)),
            old(self).rem().len() < 2 ==> r == Err::<u16, ReadError>(
                ReadError::Plain(ReadErrorKind::Eof),
            ) && *final(self) == *old(self),
    {
        self.try_get_u16()
    }

    /// Reads two obfuscated bytes. The obfuscation scheme is unspecified, so
    /// the value is returned as read.
    pub fn get_masked_index(&mut self) -> (v: u16)
        requires
            old(self).wf(),
            old(self).rem().len() >= 2,
        ensures
            final(self).wf(),
            v == be_uint(old(self).rem(), 2),
            old(self).advanced(*final(self), 2),
    {
        self.get_u16()
    }

    /// Reads one or two bytes as an unsigned smart, or fails with `Eof`
    /// leaving the cursor unchanged.
    pub fn try_get_unsigned_smart(&mut self) -> (r: Result<u16, ReadError>)
        requires
            old(self).wf(),
        ensures
            final(self).wf(),
            match spec_unsigned_smart(old(self).rem()) {
                Some((v, n)) => (r matches Ok(w) && w == v && old(self).advanced(*final(self), n)),
                None => r == Err::<u16, ReadError>(ReadError::Plain(ReadErrorKind::Eof))
                    && *final(self) == *old(self),
            },
    {
        let data_len = self.data.len();
        let rem = self.remaining();
        if rem < 1 {
            return Err(ReadError::eof());
        }
        let b0 = self.data[self.pos];
        if b0 < 0x80 {
            self.pos = self.pos + 1;
            Ok(b0 as u16)
        } else if rem < 2 {
            Err(ReadError::eof())
        } else {
            let b1 = self.data[self.pos + 1];
            self.pos = self.pos + 2;
            Ok(((b0 - 0x80) as u16) * 256 + (b1 as u16))
        }
    }

    /// Reads one or two bytes as an unsigned smart.
    pub fn get_unsigned_smart(&mut self) -> (v: u16)
        requires
            old(self).wf(),
            spec_unsigned_smart(old(self).rem()) is Some,
        ensures
            final(self).wf(),
            (spec_unsigned_smart(old(self).rem()) matches Some((w, n)) && v == w && old(
                self,
            ).advanced(*final(self), n)),
    {
        self.try_get_unsigned_smart().unwrap()
    }

    /// Reads two or four bytes as a smart32, or fails with `Eof` leaving the
    /// cursor unchanged. `None` is the two-byte absence sentinel.
    pub fn try_get_smart32(&mut self) -> (r: Result<Option<u32>, ReadError>)
        requires
            old(self).wf(),
        ensures
            final(self).wf(),
            match spec_smart32(old(self).rem()) {
                Some((v, n)) => (r matches Ok(w) && w == v && old(self).advanced(*final(self), n)),
                None => r == Err::<Option<u32>, ReadError>(ReadError::Plain(ReadErrorKind::Eof))
                    && *final(self) == *old(self),
            },
    {
        let data_len = self.data.len();
        let rem = self.remaining();
        if rem < 1 {
            return Err(ReadError::eof());
        }
        let b0 = self.data[self.pos];
        if b0 >= 0x80 {
            if rem < 4 {
                Err(ReadError::eof())
            } else {
                let b1 = self.data[self.pos + 1];
                let b2 = self.data[self.pos + 2];
                let b3 = self.data[self.pos + 3];
                self.pos = self.pos + 4;
                let v = (((b0 - 0x80) as u32) * 0x100_0000) + ((b1 as u32) * 0x1_0000) + ((
                b2 as u32) * 0x100) + (b3 as u32);
                proof {
                    reveal_with_fuel(be_uint, 5);
                }
                Ok(Some(v))
            }
        } else {
            if rem < 2 {
                Err(ReadError::eof())
            } else {
                let b1 = self.data[self.pos + 1];
                self.pos = self.pos + 2;
                let v = (b0 as u16) * 256 + (b1 as u16);
                proof {
                    reveal_with_fuel(be_uint, 3);
                }
                if v == 0x7FFF {
                    Ok(None)
                } else {
                    Ok(Some(v as u32))
                }
            }
        }
    }

    /// Reads two or four bytes as a smart32. The buffer must hold a complete
    /// encoding: the unchecked read of an incomplete one is not meaningful.
    pub fn get_smart32(&mut self) -> (v: Option<u32>)
        requires
            old(self).wf(),
            spec_smart32(old(self).rem()) is Some,
        ensures
            final(self).wf(),
            (spec_smart32(old(self).rem()) matches Some((w, n)) && v == w && old(self).advanced(
                *final(self),
                n,
            )),
    {
        self.try_get_smart32().unwrap()
    }

    /// Reads an unsigned smart and decrements it, `None` standing for a raw
    /// zero.
    pub fn get_decr_smart(&mut self) -> (v: Option<u16>)
        requires
            old(self).wf(),
            spec_decr_smart(old(self).rem()) is Some,
        ensures
            final(self).wf(),
            (spec_decr_smart(old(self).rem()) matches Some((w, n)) && v == w && old(self).advanced(
                *final(self),
                n,
            )),
    {
        let raw = self.get_unsigned_smart();
        if raw == 0 {
            None
        } else {
            Some(raw - 1)
        }
    }

    /// Sums successive unsigned smarts: `0x7FFF` keeps accumulating, any
    /// other value terminates. The encoding must be complete and the sum must
    /// fit in `u32`.
    pub fn get_smarts(&mut self) -> (v: u32)
        requires
            old(self).wf(),
            spec_smarts(old(self).rem(), 0) is Some,
        ensures
            final(self).wf(),
            (spec_smarts(old(self).rem(), 0) matches Some((w, n)) && v == w && old(self).advanced(
                *final(self),
                n,
            )),
    {
        let mut value: u32 = 0;
        loop
            invariant
                self.wf(),
                self.data == old(self).data,
                old(self).pos <= self.pos,
                spec_smarts(self.rem(), value) is Some,
                (spec_smarts(old(self).rem(), 0) matches Some((w, n)) && (spec_smarts(
                    self.rem(),
                    value,
                ) matches Some((w2, n2)) && w2 == w && n == self.pos - old(self).pos + n2)),
            decreases self.rem().len(),
        {
            let ghost pre = self.rem();
            let x = self.get_unsigned_smart();
            let ghost n = spec_unsigned_smart(pre)->Some_0.1;
            proof {
                assert(self.rem() =~= pre.skip(n));
            }
            if x == 0x7FFF {
                value = value + 0x7FFF;
            } else {
                return value + (x as u32);
            }
        }
    }

    /// Reads a flag byte, then one `(smart32, decr_smart)` pair for every set
    /// bit, least-significant first, an absent pair for every clear bit below
    /// the highest set one.
    pub fn get_masked_data(&mut self) -> (v: Vec<(Option<u32>, Option<u32>)>)
        requires
            old(self).wf(),
            spec_masked_data(old(self).rem()) is Some,
        ensures
            final(self).wf(),
            (spec_masked_data(old(self).rem()) matches Some((l, n)) && v@ == l && old(
                self,
            ).advanced(*final(self), n)),
    {
        let mut result: Vec<(Option<u32>, Option<u32>)> = Vec::new();
        let mut mask = self.get_u8();
        let ghost full = spec_masked_data(old(self).rem())->Some_0;
        proof {
            assert(self.rem() =~= old(self).rem().skip(1));
        }
        while mask > 0
            invariant
                self.wf(),
                self.data == old(self).data,
                old(self).pos < self.pos,
                spec_masked_data(old(self).rem()) == Some(full),
                spec_masked(self.rem(), mask) is Some,
                (spec_masked(self.rem(), mask) matches Some((tail, n)) && full.0 == result@ + tail
                    && full.1 == self.pos - old(self).pos + n),
            decreases mask,
        {
            let ghost rem0 = self.rem();
            let ghost m0 = mask;
            let ghost tail0 = spec_masked(rem0, m0)->Some_0.0;
            if mask % 2 == 1 {
                let a = self.get_smart32();
                let ghost n1 = spec_smart32(rem0)->Some_0.1;
                proof {
                    assert(self.rem() =~= rem0.skip(n1));
                }
                let b = self.get_decr_smart();
                let ghost n2 = spec_decr_smart(rem0.skip(n1))->Some_0.1;
                let widened = match b {
                    None => None,
                    Some(x) => Some(x as u32),
                };
                result.push((a, widened));
                mask = mask / 2;
                proof {
                    assert(self.rem() =~= rem0.skip(n1 + n2));
                    assert(widened == widen_opt(spec_decr_smart(rem0.skip(n1))->Some_0.0));
                    assert(tail0 == seq![(a, widened)] + spec_masked(self.rem(), mask)->Some_0.0);
                    assert(full.0 =~= result@ + spec_masked(self.rem(), mask)->Some_0.0);
                }
            } else {
                result.push((None, None));
                mask = mask / 2;
                proof {
                    assert(tail0 == seq![(Option::<u32>::None, Option::<u32>::None)] + spec_masked(
                        self.rem(),
                        mask,
                    )->Some_0.0);
                    assert(full.0 =~= result@ + spec_masked(self.rem(), mask)->Some_0.0);
                }
            }
        }
        proof {
            assert(full.0 =~= result@);
        }
        result
    }

    /// Reads bytes up to and including the first `term`, interpreting what
    /// precedes it as Latin-1; fails with `NotNulTerminated` leaving the
    /// cursor unchanged when no terminator remains.
    fn try_get_terminated(&mut self, term: u8) -> (r: Result<String, ReadError>)
        requires
            old(self).wf(),
        ensures
            final(self).wf(),
            match spec_terminated(old(self).rem(), term) {
                Some((bytes, n)) => (r matches Ok(s) && s@ == latin1(bytes) && old(self).advanced(
                    *final(self),
                    n,
                )),
                None => r == Err::<String, ReadError>(
                    ReadError::Plain(ReadErrorKind::NotNulTerminated),
                ) && *final(self) == *old(self),
            },
    {
        let data_len = self.data.len();
        let slice = vstd::slice::slice_subrange(self.data.as_slice(), self.pos, data_len);
        proof {
            assert(slice@ =~= old(self).rem());
            old(self).rem().index_of_first_ensures(term);
        }
        match find_byte(term, slice) {
            None => Err(ReadError::not_nul_terminated()),
            Some(i) => {
                let ghost bytes = old(self).rem().take(i as int);
                let mut s = String::new();
                let mut k: usize = 0;
                while k < i
                    invariant
                        self.wf(),
                        *self == *old(self),
                        0 <= k <= i < old(self).rem().len(),
                        data_len == self.data@.len(),
                        s@ == latin1(old(self).rem().take(k as int)),
                    decreases i - k,
                {
                    let c = self.data[self.pos + k];
                    push_char(&mut s, c as char);
                    k = k + 1;
                    proof {
                        assert(old(self).rem().take(k as int) =~= old(self).rem().take(
                            k - 1,
                        ).push(c));
                        assert(latin1(old(self).rem().take(k as int)) =~= latin1(
                            old(self).rem().take(k - 1),
                        ).push(c as char));
                    }
                }
                self.pos = self.pos + i + 1;
                proof {
                    assert(s@ =~= latin1(bytes));
                }
                Ok(s)
            },
        }
    }

    /// Reads a nul-terminated Latin-1 string, or fails with
    /// `NotNulTerminated` leaving the cursor unchanged.
    pub fn try_get_string(&mut self) -> (r: Result<String, ReadError>)
        requires
            old(self).wf(),
        ensures
            final(self).wf(),
            match spec_terminated(old(self).rem(), 0) {
                Some((bytes, n)) => (r matches Ok(s) && s@ == latin1(bytes) && old(self).advanced(
                    *final(self),
                    n,
                )),
                None => r == Err::<String, ReadError>(
                    ReadError::Plain(ReadErrorKind::NotNulTerminated),
                ) && *final(self) == *old(self),
            },
    {
        self.try_get_terminated(0)
    }

    /// Reads a nul-terminated Latin-1 string.
    pub fn get_string(&mut self) -> (r: String)
        requires
            old(self).wf(),
            spec_terminated(old(self).rem(), 0) is Some,
        ensures
            final(self).wf(),
            (spec_terminated(old(self).rem(), 0) matches Some((bytes, n)) && r@ == latin1(bytes)
                && old(self).advanced(*final(self), n)),
    {
        self.try_get_terminated(0).unwrap()
    }

    /// Reads a newline-terminated Latin-1 string, as the oldest cache
    /// variant stores them, or fails with `NotNulTerminated` leaving the
    /// cursor unchanged.
    pub fn try_get_line(&mut self) -> (r: Result<String, ReadError>)
        requires
            old(self).wf(),
        ensures
            final(self).wf(),
            match spec_terminated(old(self).rem(), 10) {
                Some((bytes, n)) => (r matches Ok(s) && s@ == latin1(bytes) && old(self).advanced(
                    *final(self),
                    n,
                )),
                None => r == Err::<String, ReadError>(
                    ReadError::Plain(ReadErrorKind::NotNulTerminated),
                ) && *final(self) == *old(self),
            },
    {
        self.try_get_terminated(10)
    }

    /// Skips one byte, then reads a nul-terminated Latin-1 string.
    pub fn get_padded_string(&mut self) -> (r: String)
        requires
            old(self).wf(),
            old(self).rem().len() >= 1,
            spec_terminated(old(self).rem().skip(1), 0) is Some,
        ensures
            final(self).wf(),
            (spec_terminated(old(self).rem().skip(1), 0) matches Some((bytes, n)) && r@ == latin1(
                bytes,
            ) && old(self).advanced(*final(self), n + 1)),
    {
        let _pad = self.get_u8();
        proof {
            assert(self.rem() =~= old(self).rem().skip(1));
        }
        self.get_string()
    }
}

/// Relies on memchr::memchr: the index of the first occurrence of `needle`
/// in `haystack`, if there is one.
#[verifier::external_body]
fn find_byte(needle: u8, haystack: &[u8]) -> (r: Option<usize>)
    ensures
        match r {
            Some(i) => i < haystack@.len() && haystack@[i as int] == needle && (forall|j: int|
                0 <= j < i ==> haystack@[j] != needle),
            None => forall|j: int| 0 <= j < haystack@.len() ==> haystack@[j] != needle,
        },
{
    memchr::memchr(needle, haystack)
}

/// Relies on String::push: appends one character at the end.
#[verifier::external_body]
fn push_char(s: &mut String, c: char)
    ensures
        final(s)@ == old(s)@.push(c),
{
    s.push(c);
}

/// Writes an unsigned smart: the inverse of [`Buffer::get_unsigned_smart`]
/// for values up to `0x7FFF`.
pub fn encode_unsigned_smart(x: u16) -> (r: Vec<u8>)
    requires
        x <= 0x7FFF,
    ensures
        r@ == spec_encode_unsigned_smart(x),
{
    let mut v: Vec<u8> = Vec::new();
    if x < 0x80 {
        v.push(x as u8);
    } else {
        v.push((x / 256 + 0x80) as u8);
        v.push((x % 256) as u8);
    }
    proof {
        assert(v@ =~= spec_encode_unsigned_smart(x));
    }
    v
}

/// Writes a smart32: the two-byte absence sentinel, or the four-byte long
/// form for any present value below `2^31`.
pub fn encode_smart32(x: Option<u32>) -> (r: Vec<u8>)
    requires
        x matches Some(v) ==> v < 0x8000_0000,
    ensures
        r@ == spec_encode_smart32(x),
{
    let mut r: Vec<u8> = Vec::new();
    match x {
        None => {
            r.push(0x7F);
            r.push(0xFF);
        },
        Some(v) => {
            r.push((v / 0x100_0000 + 0x80) as u8);
            r.push(((v / 0x1_0000) % 256) as u8);
            r.push(((v / 256) % 256) as u8);
            r.push((v % 256) as u8);
        },
    }
    proof {
        assert(r@ =~= spec_encode_smart32(x));
    }
    r
}

/// Law: an unsigned smart survives a round trip, and its encoding takes one
/// byte exactly when the value is below `0x80`.
pub proof fn lemma_unsigned_smart_round_trip(x: u16)
    requires
        x < 0x7FFF,
    ensures
        spec_unsigned_smart(spec_encode_unsigned_smart(x)) == Some(
            (x, spec_encode_unsigned_smart(x).len() as int),
        ),
        spec_encode_unsigned_smart(x).len() == if x < 0x80 {
            1int
        } else {
            2int
        },
{
}

/// Law: a smart32 absence sentinel decodes back to absence through the short
/// form, and any present value below `2^31` decodes back through the long
/// form.
pub proof fn lemma_smart32_round_trip(x: Option<u32>)
    requires
        x matches Some(v) ==> v < 0x8000_0000,
    ensures
        spec_smart32(spec_encode_smart32(x)) == Some((x, spec_encode_smart32(x).len() as int)),
        x is None ==> spec_encode_smart32(x).len() == 2,
        x is Some ==> spec_encode_smart32(x).len() == 4,
{
    let s = spec_encode_smart32(x);
    reveal_with_fuel(be_uint, 5);
    match x {
        None => {
            assert(be_uint(s, 2) == 0x7FFF);
        },
        Some(v) => {
            assert(s[0] == (v / 0x100_0000 + 0x80) as u8);
            assert(v / 0x100_0000 < 0x80);
            assert(be_uint(s, 4) == ((s[0] * 256 + s[1]) * 256 + s[2]) * 256 + s[3]);
            assert(v == (v / 0x100_0000) * 0x100_0000 + ((v / 0x1_0000) % 256) * 0x1_0000 + ((v
                / 256) % 256) * 256 + v % 256) by (nonlinear_arith);
            assert(be_uint(s, 4) - 0x8000_0000 == v);
        },
    }
}

/// Law: under any mask the decoded table has one entry per bit up to the
/// highest set bit, and an absent pair wherever the bit is clear.
pub proof fn lemma_masked_table_shape(s: Seq<u8>, mask: u8)
    requires
        spec_masked(s, mask) is Some,
    ensures
        (spec_masked(s, mask) matches Some((l, n)) && l.len() == mask_len(mask) && (forall|i: int|
            0 <= i < l.len() && mask_bit(mask, i) == 0 ==> l[i] == (
            Option::<u32>::None,
            Option::<u32>::None,
            ))),
    decreases mask,
{
    if mask == 0 {
    } else {
        let (l, n) = spec_masked(s, mask)->Some_0;
        if mask % 2 == 1 {
            let n1 = spec_smart32(s)->Some_0.1;
            let n2 = spec_decr_smart(s.skip(n1))->Some_0.1;
            lemma_masked_table_shape(s.skip(n1 + n2), mask / 2);
            let tail = spec_masked(s.skip(n1 + n2), mask / 2)->Some_0.0;
            assert forall|i: int| 0 <= i < l.len() && mask_bit(mask, i) == 0 implies l[i] == (
            Option::<u32>::None,
            Option::<u32>::None,
            ) by {
                assert(i > 0);
                assert(l[i] == tail[i - 1]);
                assert(mask_bit(mask, i) == mask_bit(mask / 2, i - 1));
            }
        } else {
            lemma_masked_table_shape(s, mask / 2);
            let tail = spec_masked(s, mask / 2)->Some_0.0;
            assert forall|i: int| 0 <= i < l.len() && mask_bit(mask, i) == 0 implies l[i] == (
            Option::<u32>::None,
            Option::<u32>::None,
            ) by {
                if i > 0 {
                    assert(l[i] == tail[i - 1]);
                    assert(mask_bit(mask, i) == mask_bit(mask / 2, i - 1));
                }
            }
        }
    }
}

} // verus!
