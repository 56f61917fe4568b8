use sc_network_core::multihash::{Code, Error, Multihash};

#[test]
fn code_from_u64() {
    assert_eq!(Code::try_from(0x00).unwrap(), Code::Identity);
    assert_eq!(Code::try_from(0x12).unwrap(), Code::Sha2_256);
    assert!(matches!(Code::try_from(0x01).unwrap_err(), Error::UnsupportedCode(0x01)));
}

#[test]
fn code_into_u64() {
    assert_eq!(u64::from(Code::Identity), 0x00);
    assert_eq!(u64::from(Code::Sha2_256), 0x12);
}

#[test]
fn wrap_keeps_code_and_digest() {
    let m = Multihash::wrap(0x12, &[1, 2, 3]).unwrap();
    assert_eq!(m.code(), 0x12);
    assert_eq!(m.digest(), &[1, 2, 3]);
}

#[test]
fn wrap_refuses_long_digest() {
    let long = vec![7u8; 65];
    assert!(matches!(Multihash::wrap(0x12, &long), Err(Error::InvalidSize(65))));
    assert!(Multihash::wrap(0x12, &vec![7u8; 64]).is_ok());
}

#[test]
fn to_bytes_is_varint_code_length_digest() {
    let m = Multihash::wrap(0x12, &[0xaa, 0xbb]).unwrap();
    assert_eq!(m.to_bytes(), vec![0x12, 0x02, 0xaa, 0xbb]);
    // A code of 300 needs two varint bytes.
    let m = Multihash::wrap(300, &[]).unwrap();
    assert_eq!(m.to_bytes(), vec![0xac, 0x02, 0x00]);
}

#[test]
fn from_bytes_round_trip() {
    let m = Multihash::wrap(0x12, &[9, 8, 7, 6]).unwrap();
    let back = Multihash::from_bytes(&m.to_bytes()).unwrap();
    assert_eq!(back.code(), 0x12);
    assert_eq!(back.digest(), &[9, 8, 7, 6]);
}

#[test]
fn from_bytes_refuses_trailing_or_missing_bytes() {
    assert!(matches!(Multihash::from_bytes(&[0x12, 0x02, 0xaa]), Err(Error::Other)));
    assert!(matches!(Multihash::from_bytes(&[0x12, 0x01, 0xaa, 0xbb]), Err(Error::Other)));
    assert!(matches!(Multihash::from_bytes(&[]), Err(Error::Other)));
}

#[test]
fn identity_digest_keeps_input() {
    let m = Code::Identity.digest(b"key");
    assert_eq!(m.code(), 0x00);
    assert_eq!(m.digest(), b"key");
}

#[test]
fn sha256_digest_of_empty_input() {
    let m = Code::Sha2_256.digest(b"");
    assert_eq!(m.code(), 0x12);
    let expected: [u8; 32] = [
        0xe3, 0xb0, 0xc4, 0x42, 0x98, 0xfc, 0x1c, 0x14, 0x9a, 0xfb, 0xf4, 0xc8, 0x99, 0x6f, 0xb9,
        0x24, 0x27, 0xae, 0x41, 0xe4, 0x64, 0x9b, 0x93, 0x4c, 0xa4, 0x95, 0x99, 0x1b, 0x78, 0x52,
        0xb8, 0x55,
    ];
    assert_eq!(m.digest(), &expected);
}
