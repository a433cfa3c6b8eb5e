use tiny_nix_ipc::header::{decode_header, encode_header, HEADER_LEN};

#[test]
fn header_has_eight_bytes() {
    assert_eq!(HEADER_LEN, 8);
    assert_eq!(encode_header(0).len(), 8);
    assert_eq!(encode_header(u64::MAX).len(), 8);
}

#[test]
fn header_is_little_endian() {
    assert_eq!(encode_header(4), vec![4, 0, 0, 0, 0, 0, 0, 0]);
    assert_eq!(encode_header(0), vec![0, 0, 0, 0, 0, 0, 0, 0]);
    assert_eq!(encode_header(256), vec![0, 1, 0, 0, 0, 0, 0, 0]);
    assert_eq!(encode_header(0x0102030405060708), vec![8, 7, 6, 5, 4, 3, 2, 1]);
    assert_eq!(encode_header(u64::MAX), vec![0xFF; 8]);
}

#[test]
fn header_agrees_with_std() {
    for value in [0u64, 1, 255, 256, 65535, 123456, 1 << 32, u64::MAX - 1, u64::MAX] {
        assert_eq!(encode_header(value), value.to_le_bytes().to_vec());
        assert_eq!(decode_header(&value.to_le_bytes()), value);
    }
}

#[test]
fn decode_reads_least_significant_byte_first() {
    assert_eq!(decode_header(&[4, 0, 0, 0, 0, 0, 0, 0]), 4);
    assert_eq!(decode_header(&[0, 1, 0, 0, 0, 0, 0, 0]), 256);
    assert_eq!(decode_header(&[8, 7, 6, 5, 4, 3, 2, 1]), 0x0102030405060708);
    assert_eq!(decode_header(&[0xFF; 8]), u64::MAX);
}

#[test]
fn decode_counts_missing_bytes_as_zero() {
    assert_eq!(decode_header(&[]), 0);
    assert_eq!(decode_header(&[7]), 7);
    assert_eq!(decode_header(&[0x40, 0xE2, 0x01]), 123456);
}

#[test]
fn decode_reads_only_the_header() {
    assert_eq!(decode_header(&[4, 0, 0, 0, 0, 0, 0, 0, 0xDE, 0xAD, 0xBE, 0xEF]), 4);
    assert_eq!(decode_header(&[0xFF; 9]), u64::MAX);
}

#[test]
fn decode_undoes_encode() {
    for value in [0u64, 4, 12, 123456, 0xDEADBEEF, u64::MAX] {
        assert_eq!(decode_header(&encode_header(value)), value);
    }
}
