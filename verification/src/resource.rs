//! Typed resources. A caller asking for a resource of type `R` supplies,
//! through the `MoveResource` capability, the tag naming `R` and the way to
//! decode stored bytes as `R`. Fetching a resource is then a composition:
//! build the access path from the tag, read the leaf, decode what is there.
//! Absence is an ordinary answer; bytes of the wrong shape are a decode
//! failure, reported distinctly.

use crate::access_path::{resource_access_path, spec_encode_access_path, AccountAddress};
use crate::bytes::{spec_lp, spec_u64_le, u64_le};
use crate::db::{StateDb, StateError};
use crate::tree::spec_lookup;
use vstd::arithmetic::div_mod::{lemma_div_denominator, lemma_fundamental_div_mod, lemma_small_mod};
use vstd::prelude::*;

verus! {

/// The capability a decodable resource type supplies: its self-describing
/// tag, and decoding from raw leaf bytes.
pub trait MoveResource: Sized {
    /// The tag naming the resource's type.
    spec fn spec_tag() -> Seq<u8>;

    /// What decoding yields on any byte string: a value, or a failure for
    /// bytes of the wrong shape.
    spec fn spec_decode(bytes: Seq<u8>) -> Option<Self>;

    /// The tag as bytes.
    fn resource_tag() -> (r: Vec<u8>)
        ensures
            r@ == Self::spec_tag(),
    ;

    /// Decodes a stored byte string.
    fn decode(bytes: &Vec<u8>) -> (r: Option<Self>)
        ensures
            r == Self::spec_decode(bytes@),
    ;
}

/// The leaf key of the resource with tag `tag` under `addr`.
pub open spec fn spec_resource_key(addr: Seq<u8>, tag: Seq<u8>) -> Seq<u8> {
    spec_lp(addr) + (seq![0u8] + spec_lp(tag))
}

impl StateDb {
    /// The resource of type `R` under `address` in the current version:
    /// absent where the account stores nothing under `R`'s tag, a decode
    /// failure where it stores bytes that are not an `R`, the decoded value
    /// otherwise.
    pub fn get_resource<R: MoveResource>(&self, address: &AccountAddress) -> (r: Result<
        Option<R>,
        StateError,
    >)
        requires
            self.wf(),
        ensures
            ({
                let stored = spec_lookup(
                    self.current_view(),
                    spec_resource_key(address@, R::spec_tag()),
                );
                match stored {
                    None => r == Ok::<Option<R>, StateError>(None),
                    Some(bytes) => match R::spec_decode(bytes) {
                        None => r == Err::<Option<R>, StateError>(StateError::DecodeFailure),
                        Some(v) => r == Ok::<Option<R>, StateError>(Some(v)),
                    },
                }
            }),
    {
        let tag = R::resource_tag();
        let ap = resource_access_path(address.duplicate(), tag);
        proof {
            assert(spec_encode_access_path(ap) =~= spec_resource_key(address@, R::spec_tag()));
        }
        match self.get(&ap) {
            None => Ok(None),
            Some(bytes) => match R::decode(&bytes) {
                None => Err(StateError::DecodeFailure),
                Some(v) => Ok(Some(v)),
            },
        }
    }
}

/// The integer read from eight little-endian bytes.
pub open spec fn spec_u64_from_le(s: Seq<u8>) -> int {
    s[0] + s[1] * 0x100 + s[2] * 0x10000 + s[3] * 0x1000000 + s[4] * 0x100000000 + s[5]
        * 0x10000000000 + s[6] * 0x1000000000000 + s[7] * 0x100000000000000
}

/// A simple token-balance resource: one amount, stored as its eight
/// little-endian bytes.
#[derive(Clone, Copy, Debug, PartialEq, Eq, Structural)]
pub struct BalanceResource {
    pub amount: u64,
}

impl BalanceResource {
    /// Encodes the balance as its stored bytes.
    pub fn encode(&self) -> (r: Vec<u8>)
        ensures
            r@ == spec_u64_le(self.amount),
            r@.len() == 8,
    {
        u64_le(self.amount)
    }
}

impl MoveResource for BalanceResource {
    open spec fn spec_tag() -> Seq<u8> {
        seq![0x42u8, 0x61u8, 0x6cu8, 0x61u8, 0x6eu8, 0x63u8, 0x65u8]
    }

    open spec fn spec_decode(bytes: Seq<u8>) -> Option<BalanceResource> {
        if bytes.len() == 8 {
            Some(BalanceResource { amount: spec_u64_from_le(bytes) as u64 })
        } else {
            None
        }
    }

    fn resource_tag() -> (r: Vec<u8>) {
        let mut out: Vec<u8> = Vec::new();
        out.push(0x42u8);
        out.push(0x61u8);
        out.push(0x6cu8);
        out.push(0x61u8);
        out.push(0x6eu8);
        out.push(0x63u8);
        out.push(0x65u8);
        proof {
            assert(out@ =~= Self::spec_tag());
        }
        out
    }

    fn decode(bytes: &Vec<u8>) -> (r: Option<Self>) {
        if bytes.len() != 8 {
            return None;
        }
        let amount: u64 = (bytes[0] as u64) + (bytes[1] as u64) * 0x100 + (bytes[2] as u64)
            * 0x10000 + (bytes[3] as u64) * 0x1000000 + (bytes[4] as u64) * 0x100000000 + (
        bytes[5] as u64) * 0x10000000000 + (bytes[6] as u64) * 0x1000000000000 + (bytes[7] as u64)
            * 0x100000000000000;
        Some(BalanceResource { amount })
    }
}

/// Encoding a balance and decoding the bytes yields the balance back: the
/// stored form loses nothing.
pub proof fn lemma_balance_round_trip(b: BalanceResource)
    ensures
        BalanceResource::spec_decode(spec_u64_le(b.amount)) == Some(b),
{
    let x = b.amount as int;
    let s = spec_u64_le(b.amount);
    assert(s.len() == 8);
    lemma_div_denominator(x, 0x100, 0x100);
    lemma_div_denominator(x, 0x10000, 0x100);
    lemma_div_denominator(x, 0x1000000, 0x100);
    lemma_div_denominator(x, 0x100000000, 0x100);
    lemma_div_denominator(x, 0x10000000000, 0x100);
    lemma_div_denominator(x, 0x1000000000000, 0x100);
    lemma_fundamental_div_mod(x, 0x100);
    lemma_fundamental_div_mod(x / 0x100, 0x100);
    lemma_fundamental_div_mod(x / 0x10000, 0x100);
    lemma_fundamental_div_mod(x / 0x1000000, 0x100);
    lemma_fundamental_div_mod(x / 0x100000000, 0x100);
    lemma_fundamental_div_mod(x / 0x10000000000, 0x100);
    lemma_fundamental_div_mod(x / 0x1000000000000, 0x100);
    assert(0 <= x / 0x100000000000000 < 0x100);
    lemma_small_mod((x / 0x100000000000000) as nat, 0x100);
    assert(spec_u64_from_le(s) == x);
}

} // verus!
