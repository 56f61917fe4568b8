//! Self-describing hashes: a code naming the hash function, followed by the digest.
use sha2::Digest;
use crate::bytes::copy_bytes;
use vstd::prelude::*;

verus! {

/// Code of the identity "hash", whose digest is the input itself.
pub const IDENTITY_CODE: u64 = 0x00;

/// Code of SHA-256.
pub const SHA2_256_CODE: u64 = 0x12;

/// Largest digest, in bytes, that a [`Multihash`] can hold.
pub const MAX_DIGEST_SIZE: usize = 64;

/// The hash functions this crate can compute.
#[derive(Clone, Copy, Debug, PartialEq, Eq, Structural)]
pub enum Code {
    /// Identity hasher.
    Identity,
    /// SHA-256 (32-byte hash size).
    Sha2_256,
}

/// Error returned when a code or a multihash is rejected.
#[derive(Clone, Copy, Debug, PartialEq, Eq, Structural)]
pub enum Error {
    /// The digest is longer than a multihash can hold.
    InvalidSize(u64),
    /// The multihash code is not supported.
    UnsupportedCode(u64),
    /// The bytes are not a well-formed multihash.
    Other,
}

/// The numeric code of a hash function.
pub open spec fn code_value(c: Code) -> u64 {
    match c {
        Code::Identity => IDENTITY_CODE,
        Code::Sha2_256 => SHA2_256_CODE,
    }
}

/// The hash function with the numeric code `code`, or the error naming the code.
pub open spec fn code_from_value(code: u64) -> Result<Code, Error> {
    if code == IDENTITY_CODE {
        Ok(Code::Identity)
    } else if code == SHA2_256_CODE {
        Ok(Code::Sha2_256)
    } else {
        Err(Error::UnsupportedCode(code))
    }
}

/// Unsigned LEB128 encoding of `n`, least significant group first, minimal length.
pub open spec fn varint(n: nat) -> Seq<u8>
    decreases n,
{
    if n < 128 {
        seq![n as u8]
    } else {
        seq![((n % 128) + 128) as u8] + varint(n / 128)
    }
}

/// Wire form of a multihash: the code, the digest length and the digest.
pub open spec fn encoding(code: u64, digest: Seq<u8>) -> Seq<u8> {
    varint(code as nat) + varint(digest.len()) + digest
}

/// SHA-256 of a byte string.
pub uninterp spec fn sha256_of(data: Seq<u8>) -> Seq<u8>;

/// What [`Code::digest`] hashes `input` to, for the code `c`.
pub open spec fn digest_of(c: Code, input: Seq<u8>) -> Seq<u8> {
    match c {
        Code::Identity => input,
        Code::Sha2_256 => sha256_of(input),
    }
}

/// `r` holds the code `c` and the digest `d`.
pub open spec fn holds_parts(r: Option<(u64, Vec<u8>)>, c: u64, d: Seq<u8>) -> bool {
    match r {
        Some((rc, rd)) => rc == c && rd@ == d,
        None => false,
    }
}

/// `r` holds a digest that fits in a multihash.
pub open spec fn digest_fits(r: Option<(u64, Vec<u8>)>) -> bool {
    match r {
        Some((_, rd)) => rd@.len() <= MAX_DIGEST_SIZE,
        None => true,
    }
}

/// Relies on `sha2::Sha256::digest`: the 32-byte SHA-256 of `data`.
#[verifier::external_body]
fn sha256(data: &[u8]) -> (r: Vec<u8>)
    ensures
        r@ == sha256_of(data@),
        r@.len() == 32,
{
    sha2::Sha256::digest(data).to_vec()
}

/// Relies on `multihash::Multihash::<64>::wrap`: it refuses a digest longer than
/// 64 bytes and otherwise keeps the code and the digest as given.
#[verifier::external_body]
fn core_wrap(code: u64, input_digest: &[u8]) -> (r: Option<(u64, Vec<u8>)>)
    ensures
        r is Some <==> input_digest@.len() <= MAX_DIGEST_SIZE,
        r is Some ==> holds_parts(r, code, input_digest@),
{
    multihash::Multihash::<64>::wrap(code, input_digest).ok().map(|m| (m.code(), m.digest().to_vec()))
}

/// Relies on `multihash::Multihash::<64>::from_bytes`: the minimal varint code, the
/// varint length and a digest of that length, with nothing after it, parse back to
/// that code and digest; nothing that parses holds more than 64 bytes of digest.
#[verifier::external_body]
fn core_from_bytes(bytes: &[u8]) -> (r: Option<(u64, Vec<u8>)>)
    ensures
        forall|c: u64, d: Seq<u8>|
            d.len() <= MAX_DIGEST_SIZE && bytes@ == #[trigger] encoding(c, d) ==> holds_parts(
                r,
                c,
                d,
            ),
        r is Some ==> digest_fits(r),
{
    multihash::Multihash::<64>::from_bytes(bytes).ok().map(|m| (m.code(), m.digest().to_vec()))
}

/// Relies on `multihash::Multihash::<64>::to_bytes`: the varint code, the varint
/// digest length, then the digest.
#[verifier::external_body]
fn core_to_bytes(code: u64, digest: &[u8]) -> (r: Vec<u8>)
    requires
        digest@.len() <= MAX_DIGEST_SIZE,
    ensures
        r@ == encoding(code, digest@),
{
    multihash::Multihash::<64>::wrap(code, digest).expect("digest fits").to_bytes()
}

impl Code {
    /// Calculate digest using this code's hashing algorithm.
    ///
    /// The identity hash keeps its input, which must then fit in a multihash.
    pub fn digest(&self, input: &[u8]) -> (r: Multihash)
        requires
            *self == Code::Identity ==> input@.len() <= MAX_DIGEST_SIZE,
        ensures
            r@ == (code_value(*self), digest_of(*self, input@)),
            r.wf(),
            *self == Code::Sha2_256 ==> r@.1.len() == 32,
    {
        match self {
            Code::Identity => Multihash::from_parts(IDENTITY_CODE, input),
            Code::Sha2_256 => {
                let d = sha256(input);
                Multihash::from_parts(SHA2_256_CODE, d.as_slice())
            },
        }
    }

    /// The hash function with the numeric code `code`, if this crate supports it.
    pub fn try_from_code(code: u64) -> (r: Result<Code, Error>)
        ensures
            r == code_from_value(code),
    {
        if code == IDENTITY_CODE {
            Ok(Code::Identity)
        } else if code == SHA2_256_CODE {
            Ok(Code::Sha2_256)
        } else {
            Err(Error::UnsupportedCode(code))
        }
    }

    /// The numeric code of this hash function.
    pub fn to_code(&self) -> (r: u64)
        ensures
            r == code_value(*self),
    {
        match self {
            Code::Identity => IDENTITY_CODE,
            Code::Sha2_256 => SHA2_256_CODE,
        }
    }
}

impl From<Code> for u64 {
    fn from(code: Code) -> (r: u64)
        ensures
            r == code_value(code),
    {
        code.to_code()
    }
}

impl vstd::std_specs::convert::FromSpecImpl<Code> for u64 {
    open spec fn obeys_from_spec() -> bool {
        true
    }

    open spec fn from_spec(code: Code) -> u64 {
        code_value(code)
    }
}

impl TryFrom<u64> for Code {
    type Error = Error;

    fn try_from(code: u64) -> (r: Result<Code, Error>)
        ensures
            r == code_from_value(code),
    {
        Code::try_from_code(code)
    }
}

impl vstd::std_specs::convert::TryFromSpecImpl<u64> for Code {
    open spec fn obeys_try_from_spec() -> bool {
        true
    }

    open spec fn try_from_spec(code: u64) -> Result<Code, Error> {
        code_from_value(code)
    }
}

/// A code together with a digest of at most 64 bytes.
#[derive(Clone, Debug)]
pub struct Multihash {
    code: u64,
    digest: Vec<u8>,
}

impl View for Multihash {
    type V = (u64, Seq<u8>);

    closed spec fn view(&self) -> (u64, Seq<u8>) {
        (self.code, self.digest@)
    }
}

impl Multihash {
    /// The digest fits in a multihash.
    pub open spec fn wf(&self) -> bool {
        self@.1.len() <= MAX_DIGEST_SIZE
    }

    /// The wire form of this multihash.
    pub open spec fn spec_bytes(&self) -> Seq<u8> {
        encoding(self@.0, self@.1)
    }

    fn from_parts(code: u64, digest: &[u8]) -> (r: Multihash)
        requires
            digest@.len() <= MAX_DIGEST_SIZE,
        ensures
            r@ == (code, digest@),
            r.wf(),
    {
        Multihash { code, digest: copy_bytes(digest) }
    }

    /// A copy of this multihash.
    pub fn duplicate(&self) -> (r: Multihash)
        ensures
            r@ == self@,
    {
        Multihash { code: self.code, digest: copy_bytes(self.digest.as_slice()) }
    }

    /// Multihash code.
    pub fn code(&self) -> (r: u64)
        ensures
            r == self@.0,
    {
        self.code
    }

    /// Multihash digest.
    pub fn digest(&self) -> (r: &[u8])
        ensures
            r@ == self@.1,
    {
        self.digest.as_slice()
    }

    /// Wraps the digest in a multihash; a digest of more than 64 bytes is refused.
    pub fn wrap(code: u64, input_digest: &[u8]) -> (r: Result<Multihash, Error>)
        ensures
            input_digest@.len() <= MAX_DIGEST_SIZE ==> r is Ok && r->Ok_0@ == (code, input_digest@)
                && r->Ok_0.wf(),
            input_digest@.len() > MAX_DIGEST_SIZE ==> r == Err::<Multihash, Error>(
                Error::InvalidSize(input_digest@.len() as u64),
            ),
    {
        match core_wrap(code, input_digest) {
            Some((c, d)) => Ok(Multihash { code: c, digest: d }),
            None => Err(Error::InvalidSize(input_digest.len() as u64)),
        }
    }

    /// Parses a multihash from its wire form.
    pub fn from_bytes(bytes: &[u8]) -> (r: Result<Multihash, Error>)
        ensures
            forall|c: u64, d: Seq<u8>|
                d.len() <= MAX_DIGEST_SIZE && bytes@ == #[trigger] encoding(c, d) ==> r is Ok
                    && r->Ok_0@ == (c, d),
            r is Ok ==> r->Ok_0.wf(),
            r is Err ==> r->Err_0 == Error::Other,
    {
        match core_from_bytes(bytes) {
            Some((c, d)) => Ok(Multihash { code: c, digest: d }),
            None => Err(Error::Other),
        }
    }

    /// Returns the bytes of a multihash.
    pub fn to_bytes(&self) -> (r: Vec<u8>)
        requires
            self.wf(),
        ensures
            r@ == self.spec_bytes(),
    {
        core_to_bytes(self.code, self.digest.as_slice())
    }
}

} // verus!
