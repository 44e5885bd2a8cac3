use forum_codec::codec::{decode_bool, decode_bytes, decode_compact, decode_u32, decode_u64};
use forum_codec::encode::encode_compact_into;
use forum_codec::error::DecodeError;

fn encode_compact(v: u64) -> Vec<u8> {
    let mut out = Vec::new();
    encode_compact_into(&mut out, v);
    out
}

#[test]
fn u64_little_endian_exact_value() {
    let buf = vec![0x01, 0x02, 0x03, 0x04, 0x05, 0x06, 0x07, 0x08];
    let (v, p) = decode_u64(&buf, 0).unwrap();
    assert_eq!(v, 0x0807060504030201);
    assert_eq!(p, 8);
}

#[test]
fn u32_little_endian_exact_value() {
    let buf = vec![0xd2, 0x02, 0x96, 0x49];
    let (v, p) = decode_u32(&buf, 0).unwrap();
    assert_eq!(v, 1234567890);
    assert_eq!(p, 4);
}

#[test]
fn u64_eof_when_short() {
    let buf = vec![1, 2, 3];
    assert_eq!(decode_u64(&buf, 0), Err(DecodeError::UnexpectedEof));
    assert_eq!(decode_u32(&buf, 1), Err(DecodeError::UnexpectedEof));
}

#[test]
fn bool_bytes() {
    assert_eq!(decode_bool(&vec![0], 0).unwrap(), (false, 1));
    assert_eq!(decode_bool(&vec![1], 0).unwrap(), (true, 1));
    assert_eq!(decode_bool(&vec![2], 0), Err(DecodeError::InvalidBooleanEncoding));
    assert_eq!(decode_bool(&vec![], 0), Err(DecodeError::UnexpectedEof));
}

#[test]
fn compact_boundary_values_select_documented_modes() {
    // (input, encoded length): the documented mode boundaries.
    let cases: Vec<(u64, usize)> = vec![
        (0, 1),
        (63, 1),
        (64, 2),
        (16383, 2),
        (16384, 4),
        ((1u64 << 30) - 1, 4),
        (1u64 << 30, 5),
    ];
    for (v, len) in cases {
        let enc = encode_compact(v);
        assert_eq!(enc.len(), len, "encoded length for {}", v);
        let (back, p) = decode_compact(&enc, 0).unwrap();
        assert_eq!(back, v);
        assert_eq!(p, len);
    }
}

#[test]
fn compact_single_byte_exact_encoding() {
    assert_eq!(encode_compact(0), vec![0x00]);
    assert_eq!(encode_compact(1), vec![0x04]);
    assert_eq!(encode_compact(63), vec![0xfc]);
    // two-byte mode: value << 2 | 0b01, little endian.
    assert_eq!(encode_compact(64), vec![0x01, 0x01]);
}

#[test]
fn compact_round_trip_large_values() {
    for v in [1u64 << 30, 1u64 << 32, 1u64 << 40, u64::MAX] {
        let enc = encode_compact(v);
        let (back, p) = decode_compact(&enc, 0).unwrap();
        assert_eq!(back, v);
        assert_eq!(p, enc.len());
    }
}

#[test]
fn compact_truncated_modes_fail() {
    // Two-byte mode announced, second byte missing.
    assert_eq!(decode_compact(&vec![0x01], 0), Err(DecodeError::InvalidCompactLength));
    // Four-byte mode announced, only two bytes present.
    assert_eq!(decode_compact(&vec![0x02, 0x00], 0), Err(DecodeError::InvalidCompactLength));
    // Big mode announcing four value bytes, none present.
    assert_eq!(decode_compact(&vec![0x03], 0), Err(DecodeError::InvalidCompactLength));
    // No bytes at all.
    assert_eq!(decode_compact(&vec![], 0), Err(DecodeError::UnexpectedEof));
}

#[test]
fn compact_overflow_rejected() {
    // Big mode with nine value bytes, the ninth nonzero: over 64 bits.
    let mut buf = vec![((9 - 4) << 2) | 3];
    buf.extend_from_slice(&[0xff; 9]);
    assert_eq!(decode_compact(&buf, 0), Err(DecodeError::CompactLengthOverflow));
    // The same layout with the high byte zero stays in range.
    let mut ok = vec![((9 - 4) << 2) | 3];
    ok.extend_from_slice(&[0xff; 8]);
    ok.push(0x00);
    assert_eq!(decode_compact(&ok, 0).unwrap(), (u64::MAX, 10));
}

#[test]
fn bytes_length_prefixed() {
    // Compact 3, then three bytes, then a trailing byte left alone.
    let buf = vec![0x0c, 0xaa, 0xbb, 0xcc, 0xdd];
    let (v, p) = decode_bytes(&buf, 0).unwrap();
    assert_eq!(v, vec![0xaa, 0xbb, 0xcc]);
    assert_eq!(p, 4);
    // Announced length exceeds what remains.
    assert_eq!(decode_bytes(&vec![0x0c, 0xaa], 0), Err(DecodeError::UnexpectedEof));
}

#[test]
fn decode_at_offset() {
    let buf = vec![0xff, 0xff, 0x04];
    assert_eq!(decode_compact(&buf, 2).unwrap(), (1, 3));
}
