use cachecore::buf::{ReadError, ReadErrorKind};
use cachecore::error::CacheError;
use cachecore::index::{CacheIndex, Initial};
use cachecore::mapsquares::{GroupMapSquareIterator, MapSquareIterator, MapSquares};
use cachecore::render::RenderConfig;
use std::io::Write;

fn be16(v: u16) -> [u8; 2] {
    [(v >> 8) as u8, v as u8]
}

fn be32(v: u32) -> [u8; 4] {
    [(v >> 24) as u8, (v >> 16) as u8, (v >> 8) as u8, v as u8]
}

/// Wraps a payload in the uncompressed envelope.
fn none_env(payload: &[u8]) -> Vec<u8> {
    let mut out = vec![0x00];
    out.extend_from_slice(&be32(payload.len() as u32));
    out.extend_from_slice(payload);
    out.extend_from_slice(&[0xAA, 0xBB]);
    out
}

/// A catalog blob of single-child archives at the given ids, ascending.
fn catalog_of(ids: &[u16]) -> Vec<u8> {
    let mut blob = vec![0x06];
    blob.extend_from_slice(&be32(0)); // timestamp
    blob.push(0x00); // flags
    blob.extend_from_slice(&be16(ids.len() as u16));
    let mut prev: u16 = 0;
    for (k, id) in ids.iter().enumerate() {
        let delta = if k == 0 { *id } else { *id - prev };
        blob.extend_from_slice(&be16(delta));
        prev = *id;
    }
    for _ in ids {
        blob.extend_from_slice(&be32(0)); // crc
    }
    for _ in ids {
        blob.extend_from_slice(&be32(0)); // version
    }
    for _ in ids {
        blob.extend_from_slice(&be16(1)); // child count
    }
    for _ in ids {
        blob.extend_from_slice(&be16(0)); // child id delta
    }
    blob
}

/// An index of single-child archives whose payload is their own id byte.
fn sample_index(index_id: u32, ids: &[u16]) -> CacheIndex<Initial> {
    let store: Vec<(u32, Vec<u8>)> = ids
        .iter()
        .map(|id| (*id as u32, none_env(&[*id as u8, 0x5A])))
        .collect();
    CacheIndex::from_parts(index_id, none_env(&catalog_of(ids)), store, None).unwrap()
}

#[test]
fn iteration_visits_keys_ascending() {
    let index = sample_index(5, &[0, 1, 128, 129]);
    assert_eq!(index.metadatas().keys(), vec![0, 1, 128, 129]);
    let mut iter = index.into_iter();
    assert_eq!(iter.size_hint(), (4, Some(4)));
    let mut seen = Vec::new();
    while let Some(item) = iter.next() {
        seen.push(item.unwrap().archive_id());
    }
    assert_eq!(seen, vec![0, 1, 128, 129]);
    assert_eq!(iter.size_hint(), (0, Some(0)));
}

#[test]
fn retain_keeps_the_given_order() {
    let index = sample_index(5, &[0, 1, 128, 129]);
    let truncated = index.retain(vec![128, 0]);
    let mut iter = truncated.into_iter();
    let mut seen = Vec::new();
    while let Some(item) = iter.next() {
        seen.push(item.unwrap().archive_id());
    }
    assert_eq!(seen, vec![128, 0]);
}

#[test]
fn archive_carries_its_payload() {
    let index = sample_index(2, &[7]);
    let archive = index.archive(7).unwrap();
    assert_eq!(archive.index_id(), 2);
    assert_eq!(archive.archive_id(), 7);
    assert_eq!(archive.file(0).unwrap(), &vec![7, 0x5A]);
    assert!(archive.file(1).is_none());
    let files = archive.take_files();
    assert_eq!(files, vec![(0, vec![7, 0x5A])]);
}

#[test]
fn missing_archive_is_not_found() {
    let index = sample_index(5, &[0, 1]);
    assert!(matches!(
        index.archive(7),
        Err(CacheError::ArchiveNotFoundError(5, 7))
    ));
}

#[test]
fn missing_store_row_is_a_missing_file() {
    // the catalog has the id, the store holds no row: a distinct error
    // from the not-found one, which characterises absence from the catalog
    let catalog = none_env(&catalog_of(&[3]));
    let index = CacheIndex::from_parts(1, catalog, Vec::new(), None).unwrap();
    assert!(matches!(
        index.archive(3),
        Err(CacheError::FileMissingError(_))
    ));
}

#[test]
fn corrupt_catalog_fails_to_open() {
    assert!(matches!(
        CacheIndex::from_parts(1, vec![], Vec::new(), None),
        Err(CacheError::Decode(_))
    ));
    assert!(matches!(
        CacheIndex::from_parts(1, none_env(&[0x06]), Vec::new(), None),
        Err(CacheError::Read(_))
    ));
}

/// A catalog with one archive of several children, then its assembly.
fn multi_child_index(child_count: u16, payload: &[u8]) -> CacheIndex<Initial> {
    let mut blob = vec![0x06];
    blob.extend_from_slice(&be32(0));
    blob.push(0x00);
    blob.extend_from_slice(&be16(1));
    blob.extend_from_slice(&be16(4)); // archive id 4
    blob.extend_from_slice(&be32(0)); // crc
    blob.extend_from_slice(&be32(0)); // version
    blob.extend_from_slice(&be16(child_count));
    for _ in 0..child_count {
        blob.extend_from_slice(&be16(1)); // child ids 1, 2, ...
    }
    let store = vec![(4u32, none_env(payload))];
    CacheIndex::from_parts(0, none_env(&blob), store, None).unwrap()
}

#[test]
fn single_stripe_children_tile_the_payload() {
    // chunk sizes 2, 3, 1 as cumulative deltas 2, 1, -2
    let mut payload = b"AABBBC".to_vec();
    payload.extend_from_slice(&be32(2));
    payload.extend_from_slice(&be32(1));
    payload.extend_from_slice(&be32(0xFFFF_FFFE));
    payload.push(1); // one stripe
    let index = multi_child_index(3, &payload);
    let archive = index.archive(4).unwrap();
    let files = archive.take_files();
    assert_eq!(files.len(), 3);
    assert_eq!(files[0], (1, b"AA".to_vec()));
    assert_eq!(files[1], (2, b"BBB".to_vec()));
    assert_eq!(files[2], (3, b"C".to_vec()));
    // the concatenation of the children is the consumed payload prefix,
    // and consumed plus table plus the final byte is the whole payload
    let concat: Vec<u8> = files.iter().flat_map(|(_, b)| b.clone()).collect();
    assert_eq!(concat, b"AABBBC");
    let total: usize = files.iter().map(|(_, b)| b.len()).sum();
    assert_eq!(total + 4 * 1 * 3 + 1, payload.len());
}

#[test]
fn two_stripes_interleave_the_children() {
    // stripe 0 chunks 1 and 2; stripe 1 chunks 3 and 1
    let mut payload = b"abcdefg".to_vec();
    payload.extend_from_slice(&be32(1));
    payload.extend_from_slice(&be32(1));
    payload.extend_from_slice(&be32(3));
    payload.extend_from_slice(&be32(0xFFFF_FFFE));
    payload.push(2); // two stripes
    let index = multi_child_index(2, &payload);
    let archive = index.archive(4).unwrap();
    let files = archive.take_files();
    assert_eq!(files[0], (1, b"adef".to_vec()));
    assert_eq!(files[1], (2, b"bcg".to_vec()));
    let total: usize = files.iter().map(|(_, b)| b.len()).sum();
    assert_eq!(total + 4 * 2 * 2 + 1, payload.len());
}

#[test]
fn mismatched_stripe_table_is_rejected() {
    // chunks cover six bytes but seven remain before the table
    let mut payload = b"AABBBCX".to_vec();
    payload.extend_from_slice(&be32(2));
    payload.extend_from_slice(&be32(1));
    payload.extend_from_slice(&be32(0xFFFF_FFFE));
    payload.push(1);
    let index = multi_child_index(3, &payload);
    assert!(matches!(
        index.archive(4),
        Err(CacheError::Read(ReadError::Plain(ReadErrorKind::NotExhausted)))
    ));
}

#[test]
fn negative_chunk_is_rejected() {
    // the first chunk delta is negative
    let mut payload = b"AB".to_vec();
    payload.extend_from_slice(&be32(0xFFFF_FFFF));
    payload.extend_from_slice(&be32(3));
    payload.push(1);
    let index = multi_child_index(2, &payload);
    assert!(matches!(
        index.archive(4),
        Err(CacheError::Read(ReadError::Plain(ReadErrorKind::Eof)))
    ));
}

#[test]
fn short_stripe_table_is_rejected() {
    // the last byte asks for more table than the payload holds
    let payload = vec![0x41, 0x42, 9];
    let index = multi_child_index(2, &payload);
    assert!(matches!(
        index.archive(4),
        Err(CacheError::Read(ReadError::Plain(ReadErrorKind::Eof)))
    ));
}

#[test]
fn single_child_owns_the_whole_payload() {
    let index = sample_index(0, &[9]);
    let archive = index.archive(9).unwrap();
    assert_eq!(archive.take_files(), vec![(0, vec![9, 0x5A])]);
}

#[test]
fn grouped_iteration_clamps_at_the_corner() {
    let index = sample_index(5, &[0, 1, 128, 129, 300]);
    let mut iter =
        GroupMapSquareIterator::new_only(index, -1, 1, -1, 1, vec![(0, 0)]);
    let group = iter.next().unwrap().unwrap();
    assert_eq!(group.core_i, 0);
    assert_eq!(group.core_j, 0);
    assert_eq!(group.core_id(), 0);
    let mut coords: Vec<(u8, u8)> = group.members.iter().map(|m| (m.0, m.1)).collect();
    coords.sort();
    assert_eq!(coords, vec![(0, 0), (0, 1), (1, 0), (1, 1)]);
    for (i, j, archive) in &group.members {
        assert_eq!(archive.archive_id(), *i as u32 + 128 * (*j as u32));
    }
    assert!(iter.next().is_none());
}

#[test]
fn grouped_iteration_over_all_squares() {
    let index = sample_index(5, &[0, 129]);
    let mut iter = GroupMapSquareIterator::new(index, -1, 1, -1, 1);
    assert_eq!(iter.size_hint(), (2, Some(2)));
    let first = iter.next().unwrap().unwrap();
    assert_eq!(first.core_id(), 0);
    let mut coords: Vec<(u8, u8)> = first.members.iter().map(|m| (m.0, m.1)).collect();
    coords.sort();
    assert_eq!(coords, vec![(0, 0), (1, 1)]);
    let second = iter.next().unwrap().unwrap();
    assert_eq!(second.core_id(), 129);
    assert!(iter.next().is_none());
}

#[test]
fn map_squares_lookup() {
    let index = sample_index(5, &[0, 1, 128, 129]);
    let squares = MapSquares::new(index);
    let archive = squares.get(1, 1).unwrap();
    assert_eq!(archive.archive_id(), 129);
    assert!(squares.get(2, 0).is_none());
}

#[test]
fn map_square_iterator_walks_all_squares() {
    let index = sample_index(5, &[3, 4]);
    let mut iter = MapSquareIterator::new(index);
    assert_eq!(iter.size_hint(), (2, Some(2)));
    assert_eq!(iter.next().unwrap().unwrap().archive_id(), 3);
    assert_eq!(iter.next().unwrap().unwrap().archive_id(), 4);
    assert!(iter.next().is_none());
}

#[test]
fn render_presets() {
    let fast = RenderConfig::fast();
    assert_eq!(fast.map_id, -1);
    assert_eq!(fast.scale, 4);
    assert_eq!(fast.tile_size, 16);
    assert_eq!(fast.interp, 5);
    assert_eq!(fast.dim, 1024);
    assert_eq!(fast.initial_zoom, 2);
    let detailed = RenderConfig::detailed();
    assert_eq!(detailed.initial_zoom, 4);
    assert_eq!(detailed.dim, 1024);
}

#[test]
fn index_handle_accessors() {
    let index = sample_index(5, &[0, 1]);
    assert_eq!(index.index_id(), 5);
    assert_eq!(index.metadatas().keys(), vec![0, 1]);
    let iter = index.into_iter();
    assert_eq!(iter.metadatas().keys(), vec![0, 1]);
}

#[test]
fn keyring_decrypts_store_rows() {
    // one archive whose store row is an encrypted gzip envelope; the
    // handle's keyring carries its key
    let payload = b"keyed archive";
    let key = cachecore::xtea::Xtea {
        key: [9, 8, 7, 6],
    };
    let mut encoder = libflate::gzip::Encoder::new(Vec::new()).unwrap();
    encoder.write_all(payload).unwrap();
    let gz = encoder.finish().into_result().unwrap();
    let mut body = vec![0u8; 4];
    body.extend_from_slice(&gz);
    let length = (body.len() - 4) as u32;
    let mut row = vec![0x02];
    row.extend_from_slice(&be32(length));
    row.extend_from_slice(&xtea_encrypt_all(&body, key.key));

    let catalog = none_env(&catalog_of(&[6]));
    let index = CacheIndex::from_parts(5, catalog, vec![(6, row)], Some(vec![(6, key)]))
        .unwrap();
    let archive = index.archive(6).unwrap();
    assert_eq!(archive.take_files(), vec![(0, payload.to_vec())]);
}

fn xtea_encrypt_all(data: &[u8], key: [u32; 4]) -> Vec<u8> {
    let mut out = data.to_vec();
    for block in out.chunks_exact_mut(8) {
        let mut v0 = u32::from_be_bytes([block[0], block[1], block[2], block[3]]);
        let mut v1 = u32::from_be_bytes([block[4], block[5], block[6], block[7]]);
        let mut sum: u32 = 0;
        for _ in 0..32 {
            v0 = v0.wrapping_add(
                (((v1 << 4) ^ (v1 >> 5)).wrapping_add(v1))
                    ^ (sum.wrapping_add(key[(sum & 3) as usize])),
            );
            sum = sum.wrapping_add(0x9E37_79B9);
            v1 = v1.wrapping_add(
                (((v0 << 4) ^ (v0 >> 5)).wrapping_add(v0))
                    ^ (sum.wrapping_add(key[((sum >> 11) & 3) as usize])),
            );
        }
        block[0..4].copy_from_slice(&v0.to_be_bytes());
        block[4..8].copy_from_slice(&v1.to_be_bytes());
    }
    out
}
