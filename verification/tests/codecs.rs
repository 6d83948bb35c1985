use cachecore::buf::{encode_smart32, encode_unsigned_smart, Buffer, ReadError, ReadErrorKind};

#[test]
fn u8_and_i8_reads() {
    let mut b = Buffer::new(vec![0x7F, 0x80, 0xFF]);
    assert_eq!(b.try_get_u8().unwrap(), 0x7F);
    assert_eq!(b.get_i8(), -128);
    assert_eq!(b.try_get_i8().unwrap(), -1);
    assert!(matches!(
        b.try_get_u8(),
        Err(ReadError::Plain(ReadErrorKind::Eof))
    ));
}

#[test]
fn u16_u32_i32_reads() {
    let mut b = Buffer::new(vec![0x01, 0x02, 0xFF, 0xFF, 0xFF, 0xFE, 0x00, 0x00, 0x01, 0x00]);
    assert_eq!(b.get_u16(), 0x0102);
    assert_eq!(b.get_i32(), -2);
    assert_eq!(b.get_u32(), 256);
    assert_eq!(b.remaining(), 0);
}

#[test]
fn uint_reads_three_bytes() {
    let mut b = Buffer::new(vec![0x01, 0x00, 0x02]);
    assert_eq!(b.get_uint(3), 0x010002);
}

#[test]
fn eof_leaves_cursor_unchanged() {
    // four-byte read with three bytes remaining: Eof, cursor untouched
    let mut b = Buffer::new(vec![1, 2, 3]);
    let r = b.try_get_u32();
    assert!(matches!(r, Err(ReadError::Plain(ReadErrorKind::Eof))));
    assert_eq!(b.remaining(), 3);
    assert_eq!(b.get_u16(), 0x0102);
}

#[test]
fn unsigned_smart_boundaries() {
    let mut b = Buffer::new(vec![0x7F]);
    assert_eq!(b.get_unsigned_smart(), 127);
    let mut b = Buffer::new(vec![0x80, 0x00]);
    assert_eq!(b.get_unsigned_smart(), 0);
    let mut b = Buffer::new(vec![0xFF, 0xFF]);
    assert_eq!(b.get_unsigned_smart(), 0x7FFF);
}

#[test]
fn unsigned_smart_eof_keeps_cursor() {
    let mut b = Buffer::new(vec![0x80]);
    assert!(matches!(
        b.try_get_unsigned_smart(),
        Err(ReadError::Plain(ReadErrorKind::Eof))
    ));
    assert_eq!(b.remaining(), 1);
}

#[test]
fn smart32_forms() {
    let mut b = Buffer::new(vec![0x01, 0x23]);
    assert_eq!(b.get_smart32(), Some(0x0123));
    let mut b = Buffer::new(vec![0x7F, 0xFF]);
    assert_eq!(b.get_smart32(), None);
    let mut b = Buffer::new(vec![0x80, 0x00, 0x00, 0x05]);
    assert_eq!(b.get_smart32(), Some(5));
}

#[test]
fn unsigned_smart_round_trip() {
    for x in [0u16, 1, 0x7E, 0x7F, 0x80, 0x1234, 0x7FFE] {
        let encoded = encode_unsigned_smart(x);
        if x < 0x80 {
            assert_eq!(encoded.len(), 1);
        } else {
            assert_eq!(encoded.len(), 2);
        }
        let mut b = Buffer::new(encoded);
        assert_eq!(b.get_unsigned_smart(), x);
        assert_eq!(b.remaining(), 0);
    }
}

#[test]
fn smart32_round_trip() {
    let encoded = encode_smart32(None);
    assert_eq!(encoded, vec![0x7F, 0xFF]);
    let mut b = Buffer::new(encoded);
    assert_eq!(b.get_smart32(), None);

    for x in [0u32, 5, 0x7FFF, 0x12345678, 0x7FFF_FFFF] {
        let encoded = encode_smart32(Some(x));
        assert_eq!(encoded.len(), 4);
        let mut b = Buffer::new(encoded);
        assert_eq!(b.get_smart32(), Some(x));
        assert_eq!(b.remaining(), 0);
    }
}

#[test]
fn decr_smart_values() {
    let mut b = Buffer::new(vec![0x00]);
    assert_eq!(b.get_decr_smart(), None);
    let mut b = Buffer::new(vec![0x01]);
    assert_eq!(b.get_decr_smart(), Some(0));
    let mut b = Buffer::new(vec![0x80, 0x05]);
    assert_eq!(b.get_decr_smart(), Some(4));
}

#[test]
fn smarts_accumulate() {
    let mut b = Buffer::new(vec![0x05]);
    assert_eq!(b.get_smarts(), 5);
    // 0x7FFF keeps accumulating, the next value terminates
    let mut b = Buffer::new(vec![0xFF, 0xFF, 0x05]);
    assert_eq!(b.get_smarts(), 0x7FFF + 5);
    let mut b = Buffer::new(vec![0xFF, 0xFF, 0xFF, 0xFF, 0x80, 0x00]);
    assert_eq!(b.get_smarts(), 2 * 0x7FFF);
}

#[test]
fn bitflags_lsb_first() {
    let mut b = Buffer::new(vec![0xA5]);
    let flags = b.get_bitflags();
    assert_eq!(
        flags,
        [true, false, true, false, false, true, false, true]
    );
}

#[test]
fn masked_table_shape() {
    // mask 0b101: pairs at positions 0 and 2, absent at position 1
    let mut b = Buffer::new(vec![0x05, 0x01, 0x23, 0x05, 0x7F, 0xFF, 0x00]);
    let table = b.get_masked_data();
    assert_eq!(table.len(), 3);
    assert_eq!(table[0], (Some(0x0123), Some(4)));
    assert_eq!(table[1], (None, None));
    assert_eq!(table[2], (None, None));
    assert_eq!(b.remaining(), 0);
}

#[test]
fn masked_table_empty_mask() {
    let mut b = Buffer::new(vec![0x00, 0xAA]);
    let table = b.get_masked_data();
    assert_eq!(table.len(), 0);
    assert_eq!(b.remaining(), 1);
}

#[test]
fn string_reads_latin1() {
    let mut b = Buffer::new(vec![b'A', 0xE9, b'b', 0x00, b'x']);
    let s = b.get_string();
    assert_eq!(s, "A\u{e9}b");
    assert_eq!(b.remaining(), 1);
}

#[test]
fn string_without_terminator() {
    let mut b = Buffer::new(vec![b'A', b'b']);
    assert!(matches!(
        b.try_get_string(),
        Err(ReadError::Plain(ReadErrorKind::NotNulTerminated))
    ));
    assert_eq!(b.remaining(), 2);
}

#[test]
fn padded_string_skips_one_byte() {
    let mut b = Buffer::new(vec![0x00, b'h', b'i', 0x00]);
    assert_eq!(b.get_padded_string(), "hi");
    assert_eq!(b.remaining(), 0);
}

#[test]
fn line_reads_until_newline() {
    let mut b = Buffer::new(vec![b'o', b'k', b'\n', b'z']);
    assert_eq!(b.try_get_line().unwrap(), "ok");
    assert_eq!(b.remaining(), 1);
}

#[test]
fn rgb_and_bytes() {
    let mut b = Buffer::new(vec![1, 2, 3, 4, 5]);
    assert_eq!(b.get_rgb(), [1, 2, 3]);
    assert_eq!(b.get_bytes(2), vec![4, 5]);
}

#[test]
fn masked_index_is_identity() {
    let mut b = Buffer::new(vec![0x12, 0x34]);
    assert_eq!(b.get_masked_index(), 0x1234);
    let mut b = Buffer::new(vec![0x12]);
    assert!(matches!(
        b.try_get_masked_index(),
        Err(ReadError::Plain(ReadErrorKind::Eof))
    ));
}

#[test]
fn read_error_constructors_and_context() {
    let e = ReadError::opcode_not_implemented(42);
    assert!(matches!(
        e,
        ReadError::Plain(ReadErrorKind::OpcodeNotImplemented(42))
    ));
    let e = ReadError::not_exhausted().add_context_id(7);
    assert!(matches!(e, ReadError::ContextId(7, _)));
    let e = ReadError::duplicate_opcode(3).add_context("record".to_string());
    assert!(matches!(e, ReadError::Bubbled(_, _)));
    let e = ReadError::eof().add_decode_context(vec![1, 2], vec![3], "partial".to_string());
    assert!(matches!(e, ReadError::DecodeContext(_, _, _, _)));
}
