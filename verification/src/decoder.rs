//! The container decoder: recognises the compression envelopes, validates
//! framing, decrypts when a key is supplied, and produces the decompressed
//! payload.

use crate::buf::be_uint;
use crate::xtea::{spec_xtea_decrypt, Xtea};
use vstd::prelude::*;
use vstd::slice::{slice_subrange, slice_to_vec};

verus! {

#[verifier::external_type_specification]
#[verifier::external_body]
/// The error type of std's readers, carried through unread.
pub struct ExIoError(std::io::Error);

#[verifier::external_type_specification]
#[verifier::external_body]
/// The error type of the bzip2 decoder, carried through unread.
pub struct ExBzDecoderError(bzip2_rs::decoder::DecoderError);

/// Enumeration of the compression tokens.
pub struct Compression;

impl Compression {
    /// Token for no compression.
    pub const NONE: u8 = 0;

    /// Token for bzip compression.
    pub const BZIP: u8 = 1;

    /// Token for gzip compression.
    pub const GZIP: u8 = 2;
}

/// What a decompression can fail with.
#[derive(Debug)]
pub enum DecodeError {
    /// A stream-level failure from a gzip or zlib decoder.
    IoError(std::io::Error),
    /// A stream-level failure from the bzip2 decoder.
    BZip2Error(bzip2_rs::decoder::DecoderError),
    /// The deciphered payload was not a gzip stream: the key did not match.
    XteaError,
    /// A framing failure, in words.
    Other(String),
}

/// What a gzip stream inflates to. The result is a function of the input
/// bytes alone.
pub uninterp spec fn gunzip_of(s: Seq<u8>) -> Seq<u8>;

/// What a zlib stream inflates to. The result is a function of the input
/// bytes alone.
pub uninterp spec fn zlib_inflate_of(s: Seq<u8>) -> Seq<u8>;

/// What a bzip2 stream decodes to. The result is a function of the input
/// bytes alone.
pub uninterp spec fn bunzip_of(s: Seq<u8>) -> Seq<u8>;

/// Relies on libflate::gzip::Decoder and Read::read_to_end: inflating a
/// gzip stream either fails or yields a result determined by the input
/// bytes alone.
#[verifier::external_body]
fn gunzip(data: &[u8], size_hint: usize) -> (r: Result<Vec<u8>, std::io::Error>)
    ensures
        r matches Ok(d) ==> d@ == gunzip_of(data@),
{
    let mut decoder = libflate::gzip::Decoder::new(data)?;
    let mut out = Vec::with_capacity(size_hint);
    std::io::Read::read_to_end(&mut decoder, &mut out)?;
    Ok(out)
}

/// Relies on libflate::zlib::Decoder and Read::read_to_end: inflating a
/// zlib stream either fails or yields a result determined by the input
/// bytes alone.
#[verifier::external_body]
fn zlib_inflate(data: &[u8], size_hint: usize) -> (r: Result<Vec<u8>, std::io::Error>)
    ensures
        r matches Ok(d) ==> d@ == zlib_inflate_of(data@),
{
    let mut decoder = libflate::zlib::Decoder::new(data)?;
    let mut out = Vec::with_capacity(size_hint);
    std::io::Read::read_to_end(&mut decoder, &mut out)?;
    Ok(out)
}

/// Relies on bzip2_rs::DecoderReader and Read::read_to_end: decoding a
/// bzip2 stream either fails or yields a result determined by the input
/// bytes alone. The reader folds its header and block errors into
/// `std::io::Error`; the underlying kind is recovered by downcast.
#[verifier::external_body]
fn bunzip(data: &[u8], size_hint: usize) -> (r: Result<Vec<u8>, DecodeError>)
    ensures
        r matches Ok(d) ==> d@ == bunzip_of(data@),
        r matches Err(e) ==> (e is BZip2Error || e is IoError),
{
    let mut decoder = bzip2_rs::DecoderReader::new(data);
    let mut out = Vec::with_capacity(size_hint);
    match std::io::Read::read_to_end(&mut decoder, &mut out) {
        Ok(_) => Ok(out),
        Err(e) => Err(match e.downcast::<bzip2_rs::header::HeaderError>() {
            Ok(h) => DecodeError::BZip2Error(h.into()),
            Err(e) => match e.downcast::<bzip2_rs::block::BlockError>() {
                Ok(b) => DecodeError::BZip2Error(b.into()),
                Err(outer) => DecodeError::IoError(outer),
            },
        }),
    }
}

/// The big-endian length field at offset one.
pub open spec fn spec_len_field(s: Seq<u8>) -> int {
    be_uint(s.skip(1), 4)
}

/// The three-byte zlib envelope magic.
pub open spec fn is_zlb(s: Seq<u8>) -> bool {
    s.len() >= 3 && s[0] == 90 && s[1] == 76 && s[2] == 66
}

/// The bare gzip magic of the oldest envelopes.
pub open spec fn is_bare_gzip(s: Seq<u8>) -> bool {
    s.len() >= 3 && s[0] == 0x1F && s[1] == 0x8B && s[2] == 0x08
}

/// The four-byte header prepended before bzip2 decoding.
pub open spec fn bzh1() -> Seq<u8> {
    seq![66u8, 90u8, 104u8, 49u8]
}

/// The result is the free-form framing error with this message.
pub open spec fn is_other_err(r: Result<Vec<u8>, DecodeError>, msg: Seq<char>) -> bool {
    r matches Err(e) && (e matches DecodeError::Other(m) && m@ == msg)
}

/// A well-framed uncompressed envelope: the one shape whose payload no
/// outside call decides.
pub open spec fn spec_plain_envelope(s: Seq<u8>) -> bool {
    s.len() >= 3 && !is_zlb(s) && s[0] == 0 && s.len() >= spec_len_field(s) + 7
}

/// What a well-framed envelope decompresses to, as a function of the bytes
/// and the key alone: the payload for the uncompressed shape, the named
/// inflate result of the framed stream for the others; nothing when the
/// framing itself is wrong. A stream the outside decoder rejects still has
/// a value here: [`decompress`] then fails where this stays `Some`.
pub open spec fn spec_decompressed(s: Seq<u8>, xtea: Option<Xtea>) -> Option<Seq<u8>> {
    if s.len() < 3 {
        None
    } else if is_zlb(s) {
        if s.len() < 8 {
            None
        } else {
            Some(zlib_inflate_of(s.skip(8)))
        }
    } else if s[0] == 0 {
        if s.len() < spec_len_field(s) + 7 {
            None
        } else {
            Some(s.subrange(5, 5 + spec_len_field(s)))
        }
    } else if s[0] == 1 {
        if s.len() < 9 {
            None
        } else {
            Some(bunzip_of(bzh1() + s.skip(9)))
        }
    } else if s[0] == 2 {
        match xtea {
            Some(key) => {
                if s.len() < spec_len_field(s) + 9 {
                    None
                } else {
                    Some(
                        gunzip_of(
                            spec_xtea_decrypt(
                                s.subrange(5, spec_len_field(s) + 9),
                                key.key,
                            ).skip(4),
                        ),
                    )
                }
            },
            None => {
                if s.len() < 9 {
                    None
                } else {
                    Some(gunzip_of(s.skip(9)))
                }
            },
        }
    } else if is_bare_gzip(s) {
        Some(gunzip_of(s.take(s.len() - 2)))
    } else {
        None
    }
}

/// Reads the length field of an envelope.
fn read_len_field(data: &[u8]) -> (v: u32)
    requires
        data@.len() >= 5,
    ensures
        v == spec_len_field(data@),
{
    let b0 = *vstd::slice::slice_index_get(data, 1);
    let b1 = *vstd::slice::slice_index_get(data, 2);
    let b2 = *vstd::slice::slice_index_get(data, 3);
    let b3 = *vstd::slice::slice_index_get(data, 4);
    proof {
        reveal_with_fuel(be_uint, 5);
        crate::buf::lemma_be_uint_bound(data@.skip(1), 4);
        reveal_with_fuel(crate::buf::pow256, 5);
    }
    (((b0 as u32) * 256 + (b1 as u32)) * 256 + (b2 as u32)) * 256 + (b3 as u32)
}

/// Recognises the envelope on the first bytes and produces the decompressed
/// payload: a zlib stream after an eight-byte header; a plain payload
/// between a five-byte header and two trailing bytes; a bzip2 stream with
/// its four-byte magic re-attached; a gzip stream after a nine-byte header,
/// deciphered first when a key is supplied; or a bare gzip stream less two
/// trailing version bytes. `filesize` only pre-sizes buffers.
pub fn decompress(encoded_data: Vec<u8>, filesize: Option<u32>, xtea: Option<Xtea>) -> (r: Result<
    Vec<u8>,
    DecodeError,
>)
    ensures
        r matches Ok(d) ==> spec_decompressed(encoded_data@, xtea) == Some(d@),
        spec_decompressed(encoded_data@, xtea) is None ==> r is Err,
        spec_plain_envelope(encoded_data@) ==> (r matches Ok(d) && d@ == encoded_data@.subrange(
            5,
            5 + spec_len_field(encoded_data@),
        )),
        encoded_data@.len() < 3 ==> is_other_err(r, "File was empty"@),
        is_zlb(encoded_data@) ==> (if encoded_data@.len() < 8 {
            is_other_err(r, "Truncated envelope"@)
        } else {
            match r {
                Ok(d) => d@ == zlib_inflate_of(encoded_data@.skip(8)),
                Err(e) => e is IoError,
            }
        }),
        encoded_data@.len() >= 3 && !is_zlb(encoded_data@) && encoded_data@[0] == 0 ==> ({
            let lf = spec_len_field(encoded_data@);
            if encoded_data@.len() < lf + 7 {
                is_other_err(r, "Truncated envelope"@)
            } else {
                (r matches Ok(d) && d@ == encoded_data@.subrange(5, 5 + lf))
            }
        }),
        encoded_data@.len() >= 3 && !is_zlb(encoded_data@) && encoded_data@[0] == 1 ==> (if
        encoded_data@.len() < 9 {
            is_other_err(r, "Truncated envelope"@)
        } else {
            match r {
                Ok(d) => d@ == bunzip_of(bzh1() + encoded_data@.skip(9)),
                Err(e) => e is BZip2Error || e is IoError,
            }
        }),
        encoded_data@.len() >= 3 && !is_zlb(encoded_data@) && encoded_data@[0] == 2 && xtea
            is Some ==> ({
            let lf = spec_len_field(encoded_data@);
            if encoded_data@.len() < lf + 9 {
                is_other_err(r, "Truncated envelope"@)
            } else {
                let dec = spec_xtea_decrypt(
                    encoded_data@.subrange(5, lf + 9),
                    xtea->Some_0.key,
                );
                match r {
                    Ok(d) => d@ == gunzip_of(dec.skip(4)),
                    Err(e) => e is XteaError,
                }
            }
        }),
        encoded_data@.len() >= 3 && !is_zlb(encoded_data@) && encoded_data@[0] == 2 && xtea
            is None ==> (if encoded_data@.len() < 9 {
            is_other_err(r, "Truncated envelope"@)
        } else {
            match r {
                Ok(d) => d@ == gunzip_of(encoded_data@.skip(9)),
                Err(e) => e is IoError,
            }
        }),
        encoded_data@.len() >= 3 && !is_zlb(encoded_data@) && encoded_data@[0] != 0
            && encoded_data@[0] != 1 && encoded_data@[0] != 2 && is_bare_gzip(encoded_data@) ==> (
        match r {
            Ok(d) => d@ == gunzip_of(encoded_data@.take(encoded_data@.len() - 2)),
            Err(e) => e is IoError,
        }),
        encoded_data@.len() >= 3 && !is_zlb(encoded_data@) && encoded_data@[0] != 0
            && encoded_data@[0] != 1 && encoded_data@[0] != 2 && !is_bare_gzip(encoded_data@)
            ==> is_other_err(r, "Unknown compression format"@),
{
    let n = encoded_data.len();
    if n < 3 {
        return Err(DecodeError::Other(String::from_str("File was empty")));
    }
    let hint: usize = match filesize {
        Some(f) => f as usize,
        None => 0,
    };
    let b0 = encoded_data[0];
    let b1 = encoded_data[1];
    let b2 = encoded_data[2];
    if b0 == 90 && b1 == 76 && b2 == 66 {
        if n < 8 {
            return Err(DecodeError::Other(String::from_str("Truncated envelope")));
        }
        let body = slice_subrange(encoded_data.as_slice(), 8, n);
        proof {
            assert(body@ =~= encoded_data@.skip(8));
        }
        match zlib_inflate(body, hint) {
            Ok(d) => Ok(d),
            Err(e) => Err(DecodeError::IoError(e)),
        }
    } else if b0 == Compression::NONE {
        proof {
            crate::buf::lemma_be_uint_nonneg(encoded_data@.skip(1), 4);
        }
        if n < 7 {
            return Err(DecodeError::Other(String::from_str("Truncated envelope")));
        }
        let lf = read_len_field(encoded_data.as_slice());
        if (n as u64) < (lf as u64) + 7 {
            return Err(DecodeError::Other(String::from_str("Truncated envelope")));
        }
        let payload = slice_subrange(encoded_data.as_slice(), 5, 5 + (lf as usize));
        let out = slice_to_vec(payload);
        proof {
            assert(out@ =~= encoded_data@.subrange(5, 5 + spec_len_field(encoded_data@)));
        }
        Ok(out)
    } else if b0 == Compression::BZIP {
        if n < 9 {
            return Err(DecodeError::Other(String::from_str("Truncated envelope")));
        }
        let length = read_len_field(slice_subrange(encoded_data.as_slice(), 4, n));
        let bz_hint: usize = match filesize {
            Some(f) => f as usize,
            None => length as usize,
        };
        let mut temp: Vec<u8> = Vec::new();
        temp.push(66);
        temp.push(90);
        temp.push(104);
        temp.push(49);
        let body = slice_subrange(encoded_data.as_slice(), 9, n);
        temp.extend_from_slice(body);
        proof {
            assert(temp@ =~= bzh1() + encoded_data@.skip(9));
        }
        bunzip(temp.as_slice(), bz_hint)
    } else if b0 == Compression::GZIP {
        match xtea {
            Some(key) => {
                proof {
                    crate::buf::lemma_be_uint_nonneg(encoded_data@.skip(1), 4);
                }
                if n < 9 {
                    return Err(DecodeError::Other(String::from_str("Truncated envelope")));
                }
                let lf = read_len_field(encoded_data.as_slice());
                if (n as u64) < (lf as u64) + 9 {
                    return Err(DecodeError::Other(String::from_str("Truncated envelope")));
                }
                let enc = slice_subrange(encoded_data.as_slice(), 5, (lf as usize) + 9);
                let decrypted = Xtea::decrypt(enc, key);
                let dec_len = decrypted.len();
                let body = slice_subrange(decrypted.as_slice(), 4, dec_len);
                proof {
                    assert(enc@ =~= encoded_data@.subrange(5, spec_len_field(encoded_data@) + 9));
                    assert(body@ =~= spec_xtea_decrypt(enc@, key.key).skip(4));
                }
                match gunzip(body, hint) {
                    Ok(d) => Ok(d),
                    Err(_) => Err(DecodeError::XteaError),
                }
            },
            None => {
                if n < 9 {
                    return Err(DecodeError::Other(String::from_str("Truncated envelope")));
                }
                let body = slice_subrange(encoded_data.as_slice(), 9, n);
                proof {
                    assert(body@ =~= encoded_data@.skip(9));
                }
                match gunzip(body, hint) {
                    Ok(d) => Ok(d),
                    Err(e) => Err(DecodeError::IoError(e)),
                }
            },
        }
    } else if b0 == 0x1F && b1 == 0x8B && b2 == 0x08 {
        let body = slice_subrange(encoded_data.as_slice(), 0, n - 2);
        proof {
            assert(body@ =~= encoded_data@.take(encoded_data@.len() - 2));
        }
        match gunzip(body, hint) {
            Ok(d) => Ok(d),
            Err(e) => Err(DecodeError::IoError(e)),
        }
    } else {
        Err(DecodeError::Other(String::from_str("Unknown compression format")))
    }
}

} // verus!
