use vless_encryption::framing::{MAX_BODY, MIN_BODY};
use vless_encryption::{
    decode_header, decode_length, encode_header, encode_length, MLKEM768_CT_LEN, MLKEM768_EK_LEN,
    TAG_LEN, X25519_LEN,
};

#[test]
fn header_round_trip_and_bounds() {
    let h = encode_header(20);
    assert_eq!(decode_header(&h).unwrap(), 20);
    // Too short / too long / wrong prefix are rejected.
    assert!(decode_header(&encode_header(16)).is_err());
    assert!(decode_header(&[0, 3, 3, 0, 20]).is_err());
}

#[test]
fn header_layout() {
    assert_eq!(encode_header(0x1234), [23, 3, 3, 0x12, 0x34]);
    // Only sixteen bits go into the header.
    assert_eq!(encode_header(0x5_1234), [23, 3, 3, 0x12, 0x34]);
}

#[test]
fn header_accepts_exactly_the_body_range() {
    assert_eq!((MIN_BODY, MAX_BODY), (17, 16640));
    for l in 0..0x1_0000usize {
        let got = decode_header(&encode_header(l));
        if (17..=16640).contains(&l) {
            assert_eq!(got, Ok(l));
        } else {
            assert!(got.is_err());
        }
    }
}

#[test]
fn header_prefix_is_checked_byte_by_byte() {
    assert!(decode_header(&[23, 3, 3, 0, 20]).is_ok());
    assert!(decode_header(&[22, 3, 3, 0, 20]).is_err());
    assert!(decode_header(&[23, 2, 3, 0, 20]).is_err());
    assert!(decode_header(&[23, 3, 1, 0, 20]).is_err());
}

#[test]
fn header_error_shows_the_bytes() {
    let e = decode_header(&[0, 3, 10, 255, 199]).unwrap_err();
    assert_eq!(e.header, [0, 3, 10, 255, 199]);
    assert_eq!(
        e.message(),
        "vless-encryption: invalid record header: [0, 3, 10, 255, 199]"
    );
    for b in 0..=255u8 {
        let h = [1, b, 9, 100, b];
        let e = decode_header(&h).unwrap_err();
        assert_eq!(e.message(), format!("vless-encryption: invalid record header: {h:?}"));
    }
}

#[test]
fn lengths_are_big_endian() {
    assert_eq!(encode_length(0x0102), [1, 2]);
    assert_eq!(decode_length(&[1, 2]), 0x0102);
    assert_eq!(decode_length(&[1, 2, 99]), 0x0102);
    assert_eq!(encode_length(0x1_0001), [0, 1]);
}

#[test]
fn lengths_round_trip() {
    for l in 0..0x1_0000usize {
        assert_eq!(decode_length(&encode_length(l)), l);
    }
}

#[test]
fn key_sizes() {
    assert_eq!((X25519_LEN, MLKEM768_EK_LEN, MLKEM768_CT_LEN, TAG_LEN), (32, 1184, 1088, 16));
}
