//! The cryptographic digest that identifies tree nodes and state roots.

use crate::bytes::bytes_eq;
use sha3::Digest;
use vstd::prelude::*;

verus! {

/// A 32-byte cryptographic digest. Node hashes, state roots and sub-tree
/// roots are all values of this type.
#[derive(Debug)]
pub struct HashValue {
    pub bytes: Vec<u8>,
}

impl View for HashValue {
    type V = Seq<u8>;

    open spec fn view(&self) -> Seq<u8> {
        self.bytes@
    }
}

impl HashValue {
    /// A digest is exactly 32 bytes long.
    pub open spec fn wf(&self) -> bool {
        self@.len() == 32
    }

    /// Wraps raw digest bytes.
    pub fn from_bytes(bytes: Vec<u8>) -> (r: Self)
        ensures
            r@ == bytes@,
    {
        HashValue { bytes }
    }

    /// Returns a fresh digest with the same bytes.
    pub fn duplicate(&self) -> (r: Self)
        ensures
            r@ == self@,
    {
        HashValue { bytes: crate::bytes::clone_bytes(&self.bytes) }
    }
}

/// Decides equality of two digests.
pub fn hash_eq(a: &HashValue, b: &HashValue) -> (r: bool)
    ensures
        r == (a@ == b@),
{
    bytes_eq(&a.bytes, &b.bytes)
}

/// The SHA3-256 digest of a byte string, named but not given: the trusted
/// wrapper below is the only thing that says which digests exist.
pub uninterp spec fn hash_of(bytes: Seq<u8>) -> Seq<u8>;

/// Relies on sha3::Sha3_256 through the digest traits: the digest is a
/// 32-byte value determined by the input bytes alone.
#[verifier::external_body]
pub fn sha3_256(bytes: &Vec<u8>) -> (r: HashValue)
    ensures
        r@ == hash_of(bytes@),
        r@.len() == 32,
{
    HashValue { bytes: sha3::Sha3_256::digest(bytes.as_slice()).to_vec() }
}

} // verus!
