//! Checksums, by way of the `sha1` and `sha2` crates.
use sha1::Digest;
use vstd::prelude::*;
use crate::numbers;

verus! {

/// A SHA-1 checksum taken piece by piece (`sha1::Sha1`, whose type cannot be
/// declared).
#[verifier::external_body]
pub struct Sha1Sum {
    hash: sha1::Sha1,
}

/// The bytes that a SHA-1 checksum has seen so far.
pub uninterp spec fn sha1_fed(h: Sha1Sum) -> Seq<u8>;

/// The SHA-1 digest of a run of bytes.
pub uninterp spec fn sha1_digest(data: Seq<u8>) -> Seq<u8>;

/// Starts a hash (`sha1::Sha1::new`): it has been fed nothing.
#[verifier::external_body]
fn sha1_new() -> (r: Sha1Sum)
    ensures
        sha1_fed(r) == Seq::<u8>::empty(),
{
    Sha1Sum { hash: sha1::Sha1::new() }
}

/// Feeds a hash (`sha1::Sha1::update`): the bytes follow those it was fed
/// before.
#[verifier::external_body]
fn sha1_update(h: &mut Sha1Sum, data: &[u8])
    ensures
        sha1_fed(*final(h)) == sha1_fed(*old(h)) + data@,
{
    h.hash.update(data)
}

/// Ends a hash (`sha1::Sha1::finalize`): the digest, of 20 bytes, depends on
/// what it was fed alone.
#[verifier::external_body]
fn sha1_finish(h: Sha1Sum) -> (r: Vec<u8>)
    ensures
        r@ == sha1_digest(sha1_fed(h)),
        r@.len() == 20,
{
    h.hash.finalize().to_vec()
}

impl Sha1Sum {
    pub fn new() -> (r: Self)
        ensures
            sha1_fed(r) == Seq::<u8>::empty(),
    {
        sha1_new()
    }

    pub fn update(&mut self, data: &[u8])
        ensures
            sha1_fed(*final(self)) == sha1_fed(*old(self)) + data@,
    {
        sha1_update(self, data);
    }

    /// The checksum in hexadecimal.
    pub fn finish(self) -> (r: String)
        ensures
            r@ == numbers::hex_bytes(sha1_digest(sha1_fed(self))),
            r@.len() == 40,
    {
        let d = sha1_finish(self);
        proof {
            numbers::law_hex_bytes_len(d@);
        }
        numbers::hex_lower(d.as_slice())
    }
}

/// A SHA-256 checksum taken piece by piece (`sha2::Sha256`, whose type cannot be
/// declared).
#[verifier::external_body]
pub struct Sha256Sum {
    hash: sha2::Sha256,
}

/// The bytes that a SHA-256 checksum has seen so far.
pub uninterp spec fn sha256_fed(h: Sha256Sum) -> Seq<u8>;

/// The SHA-256 digest of a run of bytes.
pub uninterp spec fn sha256_digest(data: Seq<u8>) -> Seq<u8>;

/// Starts a hash (`sha2::Sha256::new`): it has been fed nothing.
#[verifier::external_body]
fn sha256_new() -> (r: Sha256Sum)
    ensures
        sha256_fed(r) == Seq::<u8>::empty(),
{
    Sha256Sum { hash: sha2::Sha256::new() }
}

/// Feeds a hash (`sha2::Sha256::update`): the bytes follow those it was fed
/// before.
#[verifier::external_body]
fn sha256_update(h: &mut Sha256Sum, data: &[u8])
    ensures
        sha256_fed(*final(h)) == sha256_fed(*old(h)) + data@,
{
    h.hash.update(data)
}

/// Ends a hash (`sha2::Sha256::finalize`): the digest, of 32 bytes, depends on
/// what it was fed alone.
#[verifier::external_body]
fn sha256_finish(h: Sha256Sum) -> (r: Vec<u8>)
    ensures
        r@ == sha256_digest(sha256_fed(h)),
        r@.len() == 32,
{
    h.hash.finalize().to_vec()
}

impl Sha256Sum {
    pub fn new() -> (r: Self)
        ensures
            sha256_fed(r) == Seq::<u8>::empty(),
    {
        sha256_new()
    }

    pub fn update(&mut self, data: &[u8])
        ensures
            sha256_fed(*final(self)) == sha256_fed(*old(self)) + data@,
    {
        sha256_update(self, data);
    }

    /// The checksum in hexadecimal.
    pub fn finish(self) -> (r: String)
        ensures
            r@ == numbers::hex_bytes(sha256_digest(sha256_fed(self))),
            r@.len() == 64,
    {
        let d = sha256_finish(self);
        proof {
            numbers::law_hex_bytes_len(d@);
        }
        numbers::hex_lower(d.as_slice())
    }
}

} // verus!
