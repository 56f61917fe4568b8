use core::hash::Hasher;
use sc_network_core::hashing::{
    blake2_128, blake2_256, blake2_512, blake2_512_into, blake2_64, keccak_256, keccak_512,
    twox_128, twox_256, twox_64,
};
use sha3::Digest;

fn blake2_ref(len: usize, data: &[u8]) -> Vec<u8> {
    blake2b_simd::Params::new().hash_length(len).hash(data).as_bytes().to_vec()
}

fn twox_ref(seeds: u64, data: &[u8]) -> Vec<u8> {
    let mut out = Vec::new();
    for seed in 0..seeds {
        let mut h = twox_hash::XxHash64::with_seed(seed);
        h.write(data);
        out.extend_from_slice(&h.finish().to_le_bytes());
    }
    out
}

#[test]
fn blake2b() {
    assert_eq!(blake2_ref(8, b""), blake2_64(b"")[..]);
    assert_eq!(blake2_ref(32, b"test"), blake2_256(b"test")[..]);
    assert_eq!(blake2_ref(64, b""), blake2_512(b"")[..]);
}

#[test]
fn keccak() {
    assert_eq!(sha3::Keccak256::digest(b"test").to_vec(), keccak_256(b"test")[..]);
    assert_eq!(sha3::Keccak512::digest(b"test").to_vec(), keccak_512(b"test")[..]);
}

#[test]
fn twox() {
    assert_eq!(twox_ref(2, b"test"), twox_128(b"test")[..]);
    assert_eq!(twox_ref(1, b""), twox_64(b"")[..]);
}

#[test]
fn twox_concats() {
    assert_eq!(twox_ref(2, b"test1234567890"), twox_128(&b"test1234567890"[..]));
    assert_eq!(twox_ref(2, b"testtest4567890"), twox_128(&b"testtest4567890"[..]));
}

#[test]
fn blake2_512_of_empty_input() {
    let expected: [u8; 64] = [
        0x78, 0x6a, 0x02, 0xf7, 0x42, 0x01, 0x59, 0x03, 0xc6, 0xc6, 0xfd, 0x85, 0x25, 0x52, 0xd2,
        0x72, 0x91, 0x2f, 0x47, 0x40, 0xe1, 0x58, 0x47, 0x61, 0x8a, 0x86, 0xe2, 0x17, 0xf7, 0x1f,
        0x54, 0x19, 0xd2, 0x5e, 0x10, 0x31, 0xaf, 0xee, 0x58, 0x53, 0x13, 0x89, 0x64, 0x44, 0x93,
        0x4e, 0xb0, 0x4b, 0x90, 0x3a, 0x68, 0x5b, 0x14, 0x48, 0xb7, 0x55, 0xd5, 0x6f, 0x70, 0x1a,
        0xfe, 0x9b, 0xe2, 0xce,
    ];
    assert_eq!(blake2_512(b""), expected);
    let mut dest = [0u8; 64];
    blake2_512_into(b"", &mut dest);
    assert_eq!(dest, expected);
}

#[test]
fn twox_64_of_empty_input_is_little_endian() {
    // xxHash64 of the empty input under seed 0 is 0xef46db3751d8e999.
    assert_eq!(twox_64(b""), [0x99, 0xe9, 0xd8, 0x51, 0x37, 0xdb, 0x46, 0xef]);
}

#[test]
fn twox_256_extends_twox_128() {
    let long = twox_256(b"abc");
    let short = twox_128(b"abc");
    assert_eq!(&long[..16], &short[..]);
    assert_eq!(long.len(), 32);
    assert_ne!(&long[16..], &long[..16]);
}

#[test]
fn blake2_128_differs_on_inputs() {
    assert_ne!(blake2_128(b"a"), blake2_128(b"b"));
    assert_eq!(blake2_ref(16, b"a"), blake2_128(b"a")[..]);
}
