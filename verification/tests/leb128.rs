use smart_ir::leb128::{leb128_decode, leb128_encode, LEB128DecodeError};

#[test]
fn leb128_encodes_known_values() {
    assert_eq!(leb128_encode(0), vec![0x00]);
    assert_eq!(leb128_encode(2), vec![0x02]);
    assert_eq!(leb128_encode(-1), vec![0x7f]);
    assert_eq!(leb128_encode(63), vec![0x3f]);
    assert_eq!(leb128_encode(64), vec![0xc0, 0x00]);
    assert_eq!(leb128_encode(-64), vec![0x40]);
    assert_eq!(leb128_encode(-65), vec![0xbf, 0x7f]);
    assert_eq!(leb128_encode(127), vec![0xff, 0x00]);
    assert_eq!(leb128_encode(-123456), vec![0xc0, 0xbb, 0x78]);
}

#[test]
fn leb128_round_trips() {
    for v in [0i64, 1, -1, 63, 64, -64, -65, 300, -300, 123456789, -123456789, (1 << 55) - 1, -(1 << 55)] {
        let bytes = leb128_encode(v);
        assert!(bytes.len() <= 8);
        assert_eq!(leb128_decode(&bytes).unwrap(), v);
    }
}

#[test]
fn leb128_decode_reads_only_the_first_value() {
    assert_eq!(leb128_decode(&[0xc0, 0xbb, 0x78, 0x05]).unwrap(), -123456);
    assert_eq!(leb128_decode(&[0x02, 0xff]).unwrap(), 2);
}

#[test]
fn leb128_decode_reports_errors() {
    assert!(matches!(leb128_decode(&[]), Err(LEB128DecodeError::BufferOverflow)));
    assert!(matches!(leb128_decode(&[0x80, 0x80]), Err(LEB128DecodeError::BufferOverflow)));
    assert!(matches!(
        leb128_decode(&[0x80, 0x80, 0x80, 0x80, 0x80, 0x80, 0x80, 0x80, 0x80, 0x80, 0x00]),
        Err(LEB128DecodeError::IntegerOverflow)
    ));
}
