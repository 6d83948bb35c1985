use cachecore::decoder::{decompress, DecodeError};
use cachecore::xtea::Xtea;
use std::io::Write;

fn gzip_bytes(data: &[u8]) -> Vec<u8> {
    let mut encoder = libflate::gzip::Encoder::new(Vec::new()).unwrap();
    encoder.write_all(data).unwrap();
    encoder.finish().into_result().unwrap()
}

fn zlib_bytes(data: &[u8]) -> Vec<u8> {
    let mut encoder = libflate::zlib::Encoder::new(Vec::new()).unwrap();
    encoder.write_all(data).unwrap();
    encoder.finish().into_result().unwrap()
}

fn be32(v: u32) -> [u8; 4] {
    [
        (v >> 24) as u8,
        (v >> 16) as u8,
        (v >> 8) as u8,
        v as u8,
    ]
}

fn xtea_encrypt(data: &[u8], key: [u32; 4]) -> Vec<u8> {
    let mut out = data.to_vec();
    for block in out.chunks_exact_mut(8) {
        let mut v0 = u32::from_be_bytes([block[0], block[1], block[2], block[3]]);
        let mut v1 = u32::from_be_bytes([block[4], block[5], block[6], block[7]]);
        let mut sum: u32 = 0;
        for _ in 0..32 {
            v0 = v0.wrapping_add(
                (((v1 << 4) ^ (v1 >> 5)).wrapping_add(v1))
                    ^ (sum.wrapping_add(key[(sum & 3) as usize])),
            );
            sum = sum.wrapping_add(0x9E37_79B9);
            v1 = v1.wrapping_add(
                (((v0 << 4) ^ (v0 >> 5)).wrapping_add(v0))
                    ^ (sum.wrapping_add(key[((sum >> 11) & 3) as usize])),
            );
        }
        block[0..4].copy_from_slice(&v0.to_be_bytes());
        block[4..8].copy_from_slice(&v1.to_be_bytes());
    }
    out
}

#[test]
fn empty_input_is_rejected() {
    for input in [vec![], vec![0x00], vec![0x00, 0x00]] {
        match decompress(input, None, None) {
            Err(DecodeError::Other(m)) => assert_eq!(m, "File was empty"),
            _ => panic!("expected the empty-file error"),
        }
    }
}

#[test]
fn none_envelope() {
    let input = vec![0x00, 0x00, 0x00, 0x00, 0x03, 0x41, 0x42, 0x43, 0xAA, 0xBB];
    assert_eq!(decompress(input, None, None).unwrap(), b"ABC");
}

#[test]
fn gzip_envelope_round_trip() {
    let payload = b"hello gzip envelope";
    let mut input = vec![0x02, 0, 0, 0, 0, 0, 0, 0, 0];
    input.extend_from_slice(&gzip_bytes(payload));
    assert_eq!(decompress(input, None, None).unwrap(), payload);
}

#[test]
fn zlib_envelope_round_trip() {
    let payload = b"hello zlib envelope";
    let mut input = b"ZLB".to_vec();
    input.extend_from_slice(&[0; 5]);
    input.extend_from_slice(&zlib_bytes(payload));
    assert_eq!(decompress(input, Some(payload.len() as u32), None).unwrap(), payload);
}

#[test]
fn bzip2_envelope_round_trip() {
    // a level-one stream of "The quick brown fox jumps over the lazy dog",
    // its four magic bytes stripped as the envelope stores it
    let stream: [u8; 80] = [
        66, 90, 104, 49, 49, 65, 89, 38, 83, 89, 69, 157, 238, 97, 0, 0, 4, 19, 128, 64, 0, 4, 0,
        63, 255, 255, 240, 32, 0, 49, 70, 134, 128, 0, 0, 49, 233, 169, 166, 76, 134, 17, 180,
        109, 71, 98, 98, 8, 73, 237, 122, 161, 83, 101, 101, 177, 37, 227, 226, 96, 177, 248, 152,
        57, 221, 76, 9, 111, 156, 232, 93, 201, 20, 225, 66, 65, 22, 119, 185, 132,
    ];
    let payload = b"The quick brown fox jumps over the lazy dog";
    let mut input = vec![0x01];
    input.extend_from_slice(&be32(payload.len() as u32));
    input.extend_from_slice(&be32((stream.len() - 4) as u32));
    input.extend_from_slice(&stream[4..]);
    assert_eq!(decompress(input, None, None).unwrap(), payload);
}

#[test]
fn bare_gzip_round_trip() {
    let payload = b"legacy bare gzip";
    let mut input = gzip_bytes(payload);
    input.extend_from_slice(&[0x00, 0x01]);
    assert_eq!(decompress(input, None, None).unwrap(), payload);
}

#[test]
fn encrypted_gzip_round_trip_and_wrong_key() {
    let payload = b"sealed map square";
    let key = Xtea {
        key: [0x0123_4567, 0x89AB_CDEF, 0xFEDC_BA98, 0x7654_3210],
    };
    let mut body = vec![0u8; 4];
    body.extend_from_slice(&gzip_bytes(payload));
    let length = (body.len() - 4) as u32;
    let mut input = vec![0x02];
    input.extend_from_slice(&be32(length));
    input.extend_from_slice(&xtea_encrypt(&body, key.key));
    assert_eq!(input.len(), length as usize + 9);

    assert_eq!(
        decompress(input.clone(), None, Some(key)).unwrap(),
        payload
    );

    let wrong = Xtea {
        key: [1, 2, 3, 4],
    };
    assert!(matches!(
        decompress(input, None, Some(wrong)),
        Err(DecodeError::XteaError)
    ));
}

#[test]
fn xtea_decrypt_inverts_encrypt() {
    let key = [11, 22, 33, 44];
    let data: Vec<u8> = (0u8..23).collect();
    let encrypted = xtea_encrypt(&data, key);
    // aligned blocks change under the cipher, the 7-byte tail passes through
    assert_ne!(&encrypted[0..16], &data[0..16]);
    assert_eq!(&encrypted[16..], &data[16..]);
    let decrypted = Xtea::decrypt(&encrypted, Xtea { key });
    assert_eq!(decrypted, data);
}

#[test]
fn invalid_gzip_stream_is_io_error() {
    let mut input = vec![0x02, 0, 0, 0, 0, 0, 0, 0, 0];
    input.extend_from_slice(&[0xDE, 0xAD, 0xBE, 0xEF]);
    assert!(matches!(
        decompress(input, None, None),
        Err(DecodeError::IoError(_))
    ));
}

#[test]
fn invalid_bzip2_stream_is_bzip2_error() {
    // the re-attached magic makes the header valid up to its level digit;
    // the garbage after it fails the block decoder
    let mut input = vec![0x01];
    input.extend_from_slice(&be32(0));
    input.extend_from_slice(&be32(4));
    input.extend_from_slice(&[0xFF, 0xFF, 0xFF, 0xFF, 0xFF, 0xFF, 0xFF, 0xFF]);
    match decompress(input, None, None) {
        Err(DecodeError::BZip2Error(_)) => {}
        Err(DecodeError::IoError(_)) => {}
        _ => panic!("expected a bzip2 decode failure"),
    }
}

#[test]
fn unknown_format_is_rejected() {
    let input = vec![0x77, 0x01, 0x02, 0x03];
    match decompress(input, None, None) {
        Err(DecodeError::Other(m)) => assert_eq!(m, "Unknown compression format"),
        _ => panic!("expected the unknown-format error"),
    }
}

#[test]
fn truncated_none_envelope_is_rejected() {
    // the length field asks for more payload than the input holds
    let input = vec![0x00, 0x00, 0x00, 0x00, 0x09, 0x41];
    match decompress(input, None, None) {
        Err(DecodeError::Other(m)) => assert_eq!(m, "Truncated envelope"),
        _ => panic!("expected the truncated-envelope error"),
    }
}
