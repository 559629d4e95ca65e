//! Double SHA-256 and 32-byte hash values.

use sha2::Digest;
use vstd::prelude::*;

verus! {

/// The SHA-256 digest of a byte string, as the `sha2` crate computes it.
pub uninterp spec fn sha256_digest(data: Seq<u8>) -> Seq<u8>;

/// `SHA256(SHA256(m))`.
pub open spec fn double_sha256(m: Seq<u8>) -> Seq<u8> {
    sha256_digest(sha256_digest(m))
}

/// The first four bytes of the double SHA-256 of `m`.
pub open spec fn checksum_of(m: Seq<u8>) -> Seq<u8> {
    double_sha256(m).subrange(0, 4)
}

/// Thirty-two zero bytes: the hash that marks a coinbase input.
pub open spec fn null_hash() -> Seq<u8> {
    Seq::new(32, |i: int| 0u8)
}

/// Calls `sha2::Sha256::digest` on `data`. Trusted: the 32 bytes that come
/// back are the SHA-256 digest of `data`, a function of the bytes alone.
#[verifier::external_body]
fn sha256(data: &[u8]) -> (r: [u8; 32])
    ensures
        r@ == sha256_digest(data@),
{
    sha2::Sha256::digest(data).into()
}

/// A borrowed 32-byte hash.
#[derive(Clone, Copy, Debug)]
pub struct Hash32<'a> {
    bytes: &'a [u8],
}

impl<'a> View for Hash32<'a> {
    type V = Seq<u8>;

    closed spec fn view(&self) -> Seq<u8> {
        self.bytes@
    }
}

impl<'a> Hash32<'a> {
    #[verifier::type_invariant]
    spec fn well_formed(self) -> bool {
        self.bytes@.len() == 32
    }

    /// Views 32 bytes as a hash.
    pub fn new(bytes: &'a [u8]) -> (r: Hash32<'a>)
        requires
            bytes@.len() == 32,
        ensures
            r@ == bytes@,
    {
        Hash32 { bytes }
    }

    /// Views `bytes` as a hash, if there are exactly 32 of them.
    pub fn from_slice(bytes: &'a [u8]) -> (r: Option<Hash32<'a>>)
        ensures
            r is Some <==> bytes@.len() == 32,
            r is Some ==> r.unwrap()@ == bytes@,
    {
        if bytes.len() == 32 {
            Some(Hash32 { bytes })
        } else {
            None
        }
    }

    /// The 32 bytes.
    pub fn as_bytes(&self) -> (r: &'a [u8])
        ensures
            r@ == self@,
            r@.len() == 32,
    {
        proof {
            use_type_invariant(self);
        }
        self.bytes
    }

    /// Whether all 32 bytes are zero.
    pub fn is_null(&self) -> (r: bool)
        ensures
            r == (self@ == null_hash()),
    {
        proof {
            use_type_invariant(self);
        }
        let mut i: usize = 0;
        while i < 32
            invariant
                i <= 32,
                self.bytes@.len() == 32,
                forall|k: int| 0 <= k < i ==> self.bytes@[k] == 0,
            decreases 32 - i,
        {
            if self.bytes[i] != 0 {
                assert(null_hash()[i as int] == 0);
                return false;
            }
            i += 1;
        }
        assert(self.bytes@ =~= null_hash());
        true
    }

    /// Byte-wise equality.
    pub fn same_as(&self, other: &Hash32<'_>) -> (r: bool)
        ensures
            r == (self@ == other@),
    {
        crate::codec::bytes_equal(self.bytes, other.bytes)
    }
}

/// An owned 32-byte hash.
#[derive(Clone, Copy, Debug)]
pub struct Hash32Buf {
    bytes: [u8; 32],
}

impl View for Hash32Buf {
    type V = Seq<u8>;

    closed spec fn view(&self) -> Seq<u8> {
        self.bytes@
    }
}

impl Hash32Buf {
    /// The double SHA-256 of `data`.
    pub fn double_sha256(data: &[u8]) -> (r: Hash32Buf)
        ensures
            r@ == double_sha256(data@),
            r@.len() == 32,
    {
        let first = sha256(data);
        let second = sha256(first.as_slice());
        Hash32Buf { bytes: second }
    }

    /// Copies a borrowed hash.
    pub fn from_hash(hash: Hash32<'_>) -> (r: Hash32Buf)
        ensures
            r@ == hash@,
    {
        let src = hash.as_bytes();
        let mut bytes = [0u8; 32];
        let mut i: usize = 0;
        while i < 32
            invariant
                i <= 32,
                src@.len() == 32,
                forall|k: int| 0 <= k < i ==> bytes@[k] == src@[k],
            decreases 32 - i,
        {
            bytes[i] = src[i];
            i += 1;
        }
        assert(bytes@ =~= src@);
        Hash32Buf { bytes }
    }

    /// Borrows the hash.
    pub fn as_ref(&self) -> (r: Hash32<'_>)
        ensures
            r@ == self@,
    {
        Hash32 { bytes: self.bytes.as_slice() }
    }

    /// The 32 bytes.
    pub fn to_bytes(&self) -> (r: [u8; 32])
        ensures
            r@ == self@,
    {
        self.bytes
    }
}

/// The four-byte checksum of a payload: the first four bytes of its double
/// SHA-256.
pub fn checksum(data: &[u8]) -> (r: [u8; 4])
    ensures
        r@ == checksum_of(data@),
{
    let first = sha256(data);
    let second = sha256(first.as_slice());
    let r = [second[0], second[1], second[2], second[3]];
    assert(r@ =~= checksum_of(data@));
    r
}

} // verus!
