//! Hash functions used across the node: BLAKE2b, xxHash64 and Keccak.
use core::hash::Hasher;
use sha3::Digest;
use vstd::prelude::*;

verus! {

/// BLAKE2b with an output of `len` bytes and no key.
pub uninterp spec fn blake2b_of(len: nat, data: Seq<u8>) -> Seq<u8>;

/// 64-bit xxHash of `data` under `seed`.
pub uninterp spec fn xxh64_of(seed: u64, data: Seq<u8>) -> u64;

/// Keccak-256 of `data`.
pub uninterp spec fn keccak256_of(data: Seq<u8>) -> Seq<u8>;

/// Keccak-512 of `data`.
pub uninterp spec fn keccak512_of(data: Seq<u8>) -> Seq<u8>;

/// The eight bytes of `x`, least significant first.
pub open spec fn le_bytes(x: u64) -> Seq<u8> {
    seq![
        x as u8,
        (x >> 8u64) as u8,
        (x >> 16u64) as u8,
        (x >> 24u64) as u8,
        (x >> 32u64) as u8,
        (x >> 40u64) as u8,
        (x >> 48u64) as u8,
        (x >> 56u64) as u8,
    ]
}

/// The xxHash of `data` under the seeds `0 .. n`, each written out least significant byte first.
pub open spec fn twox_of(n: nat, data: Seq<u8>) -> Seq<u8>
    decreases n,
{
    if n == 0 {
        Seq::empty()
    } else {
        twox_of((n - 1) as nat, data) + le_bytes(xxh64_of((n - 1) as u64, data))
    }
}

/// Relies on `blake2b_simd::Params::hash` with `hash_length(len)`: the unkeyed
/// BLAKE2b digest of `data`, `len` bytes long (the builder panics outside 1..=64).
#[verifier::external_body]
fn blake2b(len: usize, data: &[u8]) -> (r: Vec<u8>)
    requires
        1 <= len <= 64,
    ensures
        r@ == blake2b_of(len as nat, data@),
        r@.len() == len,
{
    blake2b_simd::Params::new().hash_length(len).hash(data).as_bytes().to_vec()
}

/// Relies on `twox_hash::XxHash64::with_seed`, fed `data` through `Hasher::write`
/// and read through `Hasher::finish`: the 64-bit xxHash of `data` under `seed`.
#[verifier::external_body]
fn xxh64(seed: u64, data: &[u8]) -> (r: u64)
    ensures
        r == xxh64_of(seed, data@),
{
    let mut h = twox_hash::XxHash64::with_seed(seed);
    h.write(data);
    h.finish()
}

/// Relies on `sha3::Keccak256::digest`: the 32-byte Keccak-256 of `data`.
#[verifier::external_body]
fn keccak256(data: &[u8]) -> (r: Vec<u8>)
    ensures
        r@ == keccak256_of(data@),
        r@.len() == 32,
{
    sha3::Keccak256::digest(data).to_vec()
}

/// Relies on `sha3::Keccak512::digest`: the 64-byte Keccak-512 of `data`.
#[verifier::external_body]
fn keccak512(data: &[u8]) -> (r: Vec<u8>)
    ensures
        r@ == keccak512_of(data@),
        r@.len() == 64,
{
    sha3::Keccak512::digest(data).to_vec()
}

fn to_array<const N: usize>(v: &Vec<u8>) -> (r: [u8; N])
    requires
        v@.len() == N,
    ensures
        r@ == v@,
{
    let mut r = [0u8; N];
    let mut i: usize = 0;
    while i < N
        invariant
            v@.len() == N,
            r@.len() == N,
            i <= N,
            forall|j: int| 0 <= j < i ==> r@[j] == v@[j],
        decreases N - i,
    {
        r[i] = v[i];
        i = i + 1;
    }
    assert(r@ =~= v@);
    r
}

fn write_u64_le<const N: usize>(dest: &mut [u8; N], off: usize, x: u64)
    requires
        off + 8 <= N,
    ensures
        final(dest)@ == old(dest)@.subrange(0, off as int) + le_bytes(x) + old(dest)@.subrange(
            off + 8,
            N as int,
        ),
{
    dest[off] = x as u8;
    dest[off + 1] = (x >> 8u64) as u8;
    dest[off + 2] = (x >> 16u64) as u8;
    dest[off + 3] = (x >> 24u64) as u8;
    dest[off + 4] = (x >> 32u64) as u8;
    dest[off + 5] = (x >> 40u64) as u8;
    dest[off + 6] = (x >> 48u64) as u8;
    dest[off + 7] = (x >> 56u64) as u8;
    assert(dest@ =~= old(dest)@.subrange(0, off as int) + le_bytes(x) + old(dest)@.subrange(
        off + 8,
        N as int,
    ));
}

/// Do a Blake2 512-bit hash and place result in `dest`.
pub fn blake2_512_into(data: &[u8], dest: &mut [u8; 64])
    ensures
        final(dest)@ == blake2b_of(64, data@),
{
    *dest = blake2_512(data);
}

/// Do a Blake2 512-bit hash and return result.
pub fn blake2_512(data: &[u8]) -> (r: [u8; 64])
    ensures
        r@ == blake2b_of(64, data@),
{
    to_array(&blake2b(64, data))
}

/// Do a Blake2 256-bit hash and return result.
pub fn blake2_256(data: &[u8]) -> (r: [u8; 32])
    ensures
        r@ == blake2b_of(32, data@),
{
    to_array(&blake2b(32, data))
}

/// Do a Blake2 128-bit hash and return result.
pub fn blake2_128(data: &[u8]) -> (r: [u8; 16])
    ensures
        r@ == blake2b_of(16, data@),
{
    to_array(&blake2b(16, data))
}

/// Do a Blake2 64-bit hash and return result.
pub fn blake2_64(data: &[u8]) -> (r: [u8; 8])
    ensures
        r@ == blake2b_of(8, data@),
{
    to_array(&blake2b(8, data))
}

/// Do a XX 64-bit hash and place result in `dest`.
pub fn twox_64_into(data: &[u8], dest: &mut [u8; 8])
    ensures
        final(dest)@ == twox_of(1, data@),
{
    let r0 = xxh64(0, data);
    write_u64_le(dest, 0, r0);
    assert(dest@ =~= twox_of(1, data@)) by {
        reveal_with_fuel(twox_of, 2);
    }
}

/// Do a XX 64-bit hash and return result.
pub fn twox_64(data: &[u8]) -> (r: [u8; 8])
    ensures
        r@ == twox_of(1, data@),
{
    let mut r: [u8; 8] = [0;8];
    twox_64_into(data, &mut r);
    r
}

/// Do a XX 128-bit hash and place result in `dest`.
pub fn twox_128_into(data: &[u8], dest: &mut [u8; 16])
    ensures
        final(dest)@ == twox_of(2, data@),
{
    let r0 = xxh64(0, data);
    let r1 = xxh64(1, data);
    write_u64_le(dest, 0, r0);
    write_u64_le(dest, 8, r1);
    assert(dest@ =~= twox_of(2, data@)) by {
        reveal_with_fuel(twox_of, 3);
    }
}

/// Do a XX 128-bit hash and return result.
pub fn twox_128(data: &[u8]) -> (r: [u8; 16])
    ensures
        r@ == twox_of(2, data@),
{
    let mut r: [u8; 16] = [0;16];
    twox_128_into(data, &mut r);
    r
}

/// Do a XX 256-bit hash and place result in `dest`.
pub fn twox_256_into(data: &[u8], dest: &mut [u8; 32])
    ensures
        final(dest)@ == twox_of(4, data@),
{
    let r0 = xxh64(0, data);
    let r1 = xxh64(1, data);
    let r2 = xxh64(2, data);
    let r3 = xxh64(3, data);
    write_u64_le(dest, 0, r0);
    write_u64_le(dest, 8, r1);
    write_u64_le(dest, 16, r2);
    write_u64_le(dest, 24, r3);
    assert(dest@ =~= twox_of(4, data@)) by {
        reveal_with_fuel(twox_of, 5);
    }
}

/// Do a XX 256-bit hash and return result.
pub fn twox_256(data: &[u8]) -> (r: [u8; 32])
    ensures
        r@ == twox_of(4, data@),
{
    let mut r: [u8; 32] = [0;32];
    twox_256_into(data, &mut r);
    r
}

/// Do a keccak 256-bit hash and return result.
pub fn keccak_256(data: &[u8]) -> (r: [u8; 32])
    ensures
        r@ == keccak256_of(data@),
{
    to_array(&keccak256(data))
}

/// Do a keccak 512-bit hash and return result.
pub fn keccak_512(data: &[u8]) -> (r: [u8; 64])
    ensures
        r@ == keccak512_of(data@),
{
    to_array(&keccak512(data))
}

} // verus!
