use cachecore::buf::{Buffer, ReadError};
use cachecore::meta::IndexMetadata;

fn be16(v: u16) -> [u8; 2] {
    [(v >> 8) as u8, v as u8]
}

fn be32(v: u32) -> [u8; 4] {
    [(v >> 24) as u8, (v >> 16) as u8, (v >> 8) as u8, v as u8]
}

struct Entry {
    delta: u16,
    crc: i32,
    version: i32,
    child_deltas: Vec<u16>,
}

/// A plain catalog blob: format six, no flags, two-byte counts.
fn plain_catalog(entries: &[Entry]) -> Vec<u8> {
    let mut blob = vec![0x06];
    blob.extend_from_slice(&be32(0)); // timestamp, skipped for formats above five
    blob.push(0x00); // flags
    blob.extend_from_slice(&be16(entries.len() as u16));
    for e in entries {
        blob.extend_from_slice(&be16(e.delta));
    }
    for e in entries {
        blob.extend_from_slice(&be32(e.crc as u32));
    }
    for e in entries {
        blob.extend_from_slice(&be32(e.version as u32));
    }
    for e in entries {
        blob.extend_from_slice(&be16(e.child_deltas.len() as u16));
    }
    for e in entries {
        for d in &e.child_deltas {
            blob.extend_from_slice(&be16(*d));
        }
    }
    blob
}

#[test]
fn single_archive_of_one_child() {
    let blob = plain_catalog(&[Entry {
        delta: 5,
        crc: 0x01020304,
        version: 0x05060708,
        child_deltas: vec![0],
    }]);
    let im = IndexMetadata::deserialize(2, Buffer::new(blob)).unwrap();
    assert_eq!(im.keys(), vec![5]);
    let m = im.get(5).unwrap();
    assert_eq!(m.index_id(), 2);
    assert_eq!(m.archive_id(), 5);
    assert_eq!(m.crc(), 0x01020304);
    assert_eq!(m.version(), 0x05060708);
    assert_eq!(m.name(), None);
    assert_eq!(m.unknown(), None);
    assert_eq!(m.compressed_size(), None);
    assert_eq!(m.size(), None);
    assert!(m.digest().is_none());
    assert_eq!(m.child_count(), 1);
    assert_eq!(m.child_indices(), &vec![0]);
    assert!(im.get(4).is_none());
}

#[test]
fn archive_ids_are_prefix_summed() {
    let blob = plain_catalog(&[
        Entry { delta: 5, crc: 0, version: 0, child_deltas: vec![3, 1, 1] },
        Entry { delta: 2, crc: 1, version: 1, child_deltas: vec![] },
        Entry { delta: 10, crc: 2, version: 2, child_deltas: vec![7] },
    ]);
    let im = IndexMetadata::deserialize(0, Buffer::new(blob)).unwrap();
    assert_eq!(im.keys(), vec![5, 7, 17]);
    // child ids are prefix sums of their own deltas
    assert_eq!(im.get(5).unwrap().child_indices(), &vec![3, 4, 5]);
    assert_eq!(im.get(7).unwrap().child_count(), 0);
    assert_eq!(im.get(17).unwrap().child_indices(), &vec![7]);
}

#[test]
fn repeated_archive_id_keeps_last_entry() {
    let blob = plain_catalog(&[
        Entry { delta: 5, crc: 1, version: 0, child_deltas: vec![] },
        Entry { delta: 0, crc: 2, version: 0, child_deltas: vec![0] },
        Entry { delta: 3, crc: 3, version: 0, child_deltas: vec![] },
    ]);
    let im = IndexMetadata::deserialize(0, Buffer::new(blob)).unwrap();
    assert_eq!(im.keys(), vec![5, 8]);
    let m = im.get(5).unwrap();
    assert_eq!(m.crc(), 2);
    assert_eq!(m.child_count(), 1);
}

#[test]
fn flagged_catalog_fills_every_section() {
    // named, hashed and extended at once
    let mut blob = vec![0x06];
    blob.extend_from_slice(&be32(123)); // timestamp
    blob.push(0x07); // flags: named | hashed | extended
    blob.extend_from_slice(&be16(1)); // entry count
    blob.extend_from_slice(&be16(9)); // archive id delta
    blob.extend_from_slice(&be32(0x11111111)); // name
    blob.extend_from_slice(&be32(0x22222222)); // crc
    blob.extend_from_slice(&be32(0x33333333)); // unknown
    blob.extend_from_slice(&[0xAB; 64]); // digest
    blob.extend_from_slice(&be32(100)); // compressed size
    blob.extend_from_slice(&be32(200)); // size
    blob.extend_from_slice(&be32(0x44444444)); // version
    blob.extend_from_slice(&be16(0)); // child count
    let im = IndexMetadata::deserialize(9, Buffer::new(blob)).unwrap();
    let m = im.get(9).unwrap();
    assert_eq!(m.name(), Some(0x11111111));
    assert_eq!(m.crc(), 0x22222222);
    assert_eq!(m.unknown(), Some(0x33333333));
    assert_eq!(m.digest().as_ref().unwrap(), &vec![0xAB; 64]);
    assert_eq!(m.compressed_size(), Some(100));
    assert_eq!(m.size(), Some(200));
    assert_eq!(m.version(), 0x44444444);
    assert_eq!(m.child_count(), 0);
}

#[test]
fn wide_catalog_reads_smart32_counts() {
    // format seven switches counts and ids to the smart32 codec
    let mut blob = vec![0x07];
    blob.extend_from_slice(&be32(0)); // timestamp
    blob.push(0x00); // flags
    blob.extend_from_slice(&be16(1)); // entry count, short smart32 form
    blob.extend_from_slice(&[0x80, 0x00, 0x01, 0x00]); // delta 256, long form
    blob.extend_from_slice(&be32(7)); // crc
    blob.extend_from_slice(&be32(8)); // version
    blob.extend_from_slice(&be16(1)); // child count
    blob.extend_from_slice(&be16(4)); // child delta
    let im = IndexMetadata::deserialize(0, Buffer::new(blob)).unwrap();
    assert_eq!(im.keys(), vec![256]);
    assert_eq!(im.get(256).unwrap().child_indices(), &vec![4]);
}

#[test]
fn overflowing_id_sum_is_rejected() {
    let mut blob = vec![0x07];
    blob.extend_from_slice(&be32(0)); // timestamp
    blob.push(0x00); // flags
    blob.extend_from_slice(&be16(3)); // entry count
    for _ in 0..3 {
        blob.extend_from_slice(&[0xFF, 0xFF, 0xFF, 0xFF]); // delta 0x7FFFFFFF
    }
    assert!(matches!(
        IndexMetadata::deserialize(0, Buffer::new(blob)),
        Err(ReadError::Plain(_))
    ));
}

#[test]
fn truncated_catalog_is_rejected() {
    let blob = vec![0x06, 0, 0, 0, 0, 0x00, 0x00];
    assert!(IndexMetadata::deserialize(0, Buffer::new(blob)).is_err());
    assert!(IndexMetadata::deserialize(0, Buffer::new(vec![])).is_err());
}

#[test]
fn empty_catalog_constructor() {
    let im = IndexMetadata::empty();
    assert_eq!(im.keys(), Vec::<u32>::new());
    assert_eq!(im.metadatas().len(), 0);
    assert_eq!(im.iter().len(), 0);
}

#[test]
fn absent_wide_count_is_rejected() {
    // format seven, but the entry count is the smart32 absence sentinel
    let mut blob = vec![0x07];
    blob.extend_from_slice(&be32(0));
    blob.push(0x00);
    blob.extend_from_slice(&[0x7F, 0xFF]);
    assert!(IndexMetadata::deserialize(0, Buffer::new(blob)).is_err());
}
