//! A content hash that is computed piece by piece.
use vstd::prelude::*;

use crate::cas::{blake3_of, Digest};

verus! {

/// The incremental hasher of `blake3`.
#[verifier::external_type_specification]
#[verifier::external_body]
pub struct ExHasher(blake3::Hasher);

/// The bytes that a hasher was fed.
pub uninterp spec fn hashed_bytes(h: blake3::Hasher) -> Seq<u8>;

/// The hasher is for the regular hash function, from the first byte on.
pub uninterp spec fn hasher_is_regular(h: blake3::Hasher) -> bool;

/// `blake3::Hasher::new`: a hasher for the regular hash function that was fed nothing.
#[verifier::external_body]
fn new_hasher() -> (r: blake3::Hasher)
    ensures
        hasher_is_regular(r),
        hashed_bytes(r) == Seq::<u8>::empty(),
{
    blake3::Hasher::new()
}

/// `blake3::Hasher::update`: adds the bytes to those that the hasher was fed.
#[verifier::external_body]
fn feed(hasher: &mut blake3::Hasher, bytes: &[u8])
    requires
        hasher_is_regular(*old(hasher)),
    ensures
        hasher_is_regular(*final(hasher)),
        hashed_bytes(*final(hasher)) == hashed_bytes(*old(hasher)) + bytes@,
{
    hasher.update(bytes);
}

/// `blake3::Hasher::finalize`: what `blake3::hash` computes of all the bytes that a regular hasher
/// was fed.
#[verifier::external_body]
fn finished(hasher: &blake3::Hasher) -> (r: [u8; 32])
    requires
        hasher_is_regular(*hasher),
    ensures
        r@ == blake3_of(hashed_bytes(*hasher)),
{
    *hasher.finalize().as_bytes()
}

/// The hash of bytes that come in pieces, and how many there were.
pub struct Checksum {
    hasher: blake3::Hasher,
    count: u64,
}

impl Checksum {
    /// The bytes so far.
    pub closed spec fn content(&self) -> Seq<u8> {
        hashed_bytes(self.hasher)
    }

    /// The hasher is a regular one, and the bytes are counted.
    #[verifier::type_invariant]
    closed spec fn inv(&self) -> bool {
        hasher_is_regular(self.hasher) && hashed_bytes(self.hasher).len() == self.count
    }

    /// Of no bytes.
    pub fn new() -> (r: Self)
        ensures
            r.content() == Seq::<u8>::empty(),
    {
        Checksum { hasher: new_hasher(), count: 0 }
    }

    /// How many bytes there were.
    pub fn count(&self) -> (r: u64)
        ensures
            r == self.content().len(),
    {
        proof {
            use_type_invariant(self);
        }
        self.count
    }

    /// Adds bytes.
    pub fn update(self, bytes: &[u8]) -> (r: Self)
        requires
            self.content().len() + bytes@.len() <= u64::MAX,
        ensures
            r.content() == self.content() + bytes@,
    {
        proof {
            use_type_invariant(&self);
        }
        let mut hasher = self.hasher;
        feed(&mut hasher, bytes);
        Checksum { hasher, count: self.count + bytes.len() as u64 }
    }

    /// The hash of the bytes.
    pub fn digest(&self) -> (r: Digest)
        ensures
            r.0@ == blake3_of(self.content()),
    {
        proof {
            use_type_invariant(self);
        }
        crate::cas::Hash(finished(&self.hasher))
    }
}

} // verus!
