//! Proof structures: the path of authenticated node summaries that lets a
//! remote caller recompute a state root from a claimed leaf value or from a
//! claimed absence, and the pure function that checks such a path.

use crate::bytes::{append_bytes, append_lp, lex_lt, spec_lp};
use crate::hash::{hash_eq, hash_of, sha3_256, HashValue};
use vstd::prelude::*;

verus! {

/// The preimage hashed to form a node's summary: a tag byte, the
/// length-prefixed node key, then the value digest and both child roots.
pub open spec fn spec_node_enc(key: Seq<u8>, value_hash: Seq<u8>, left: Seq<u8>, right: Seq<u8>) -> Seq<u8> {
    seq![1u8] + spec_lp(key) + value_hash + left + right
}

/// The root of an empty (sub)tree: the digest of a lone marker byte.
pub open spec fn spec_empty_root() -> Seq<u8> {
    hash_of(seq![0u8])
}

/// Computes the root of an empty (sub)tree.
pub fn empty_root() -> (r: HashValue)
    ensures
        r@ == spec_empty_root(),
{
    let mut marker: Vec<u8> = Vec::new();
    marker.push(0u8);
    proof {
        assert(marker@ =~= seq![0u8]);
    }
    sha3_256(&marker)
}

/// Builds the preimage of a node summary.
pub fn encode_node(key: &Vec<u8>, value_hash: &HashValue, left: &HashValue, right: &HashValue) -> (r: Vec<u8>)
    ensures
        r@ == spec_node_enc(key@, value_hash@, left@, right@),
{
    let mut out: Vec<u8> = Vec::new();
    out.push(1u8);
    proof {
        assert(out@ =~= seq![1u8]);
    }
    append_lp(&mut out, key);
    append_bytes(&mut out, &value_hash.bytes);
    append_bytes(&mut out, &left.bytes);
    append_bytes(&mut out, &right.bytes);
    proof {
        assert(out@ =~= spec_node_enc(key@, value_hash@, left@, right@));
    }
    out
}

/// One step of a proof: the summary of a node on the search path, holding
/// its key, the digest of its value, and the roots of its two children.
#[derive(Debug)]
pub struct ProofNode {
    pub key: Vec<u8>,
    pub value_hash: HashValue,
    pub left: HashValue,
    pub right: HashValue,
}

/// Ordered sequence of node summaries from the root of the tree down the
/// search path of one leaf key.
#[derive(Debug)]
pub struct StateProof {
    pub nodes: Vec<ProofNode>,
}

/// Pair of an optional leaf value and the proof for it, as answered for a
/// plain `AccessPath` query.
#[derive(Debug)]
pub struct StateWithProof {
    pub state: Option<Vec<u8>>,
    pub proof: StateProof,
}

/// Answer to a table-item query: the registry lookup that resolves the
/// handle to its owner, and, where the handle resolved, the item lookup
/// under the owning account. Both proofs check against the same root.
#[derive(Debug)]
pub struct StateWithTableItemProof {
    pub registry: StateWithProof,
    pub item: Option<StateWithProof>,
}

/// The root a node summary stands for.
pub open spec fn spec_entry_hash(e: ProofNode) -> Seq<u8> {
    hash_of(spec_node_enc(e.key@, e.value_hash@, e.left@, e.right@))
}

/// `child` is the child of `parent` on the search path of `key`.
pub open spec fn spec_link(key: Seq<u8>, parent: ProofNode, child: ProofNode) -> bool {
    if lex_lt(key, parent.key@) {
        parent.left@ == spec_entry_hash(child)
    } else if lex_lt(parent.key@, key) {
        parent.right@ == spec_entry_hash(child)
    } else {
        false
    }
}

/// Every consecutive pair of summaries is linked along the search path.
pub open spec fn spec_chain_links(key: Seq<u8>, nodes: Seq<ProofNode>) -> bool {
    forall|i: int| 0 <= i < nodes.len() - 1 ==> #[trigger] spec_link(key, nodes[i], nodes[i + 1])
}

/// The last summary settles the query: for a present value it is the node
/// with `key` itself and carries the value's digest; for an absence the
/// search would continue into an empty child.
pub open spec fn spec_terminal(key: Seq<u8>, value: Option<Seq<u8>>, last: ProofNode) -> bool {
    match value {
        Some(v) => last.key@ == key && last.value_hash@ == hash_of(v),
        None => if lex_lt(key, last.key@) {
            last.left@ == spec_empty_root()
        } else if lex_lt(last.key@, key) {
            last.right@ == spec_empty_root()
        } else {
            false
        },
    }
}

/// A proof checks against `root` for the claim that the leaf at `key` holds
/// `value` (or that no leaf holds `key`, when `value` is absent). This is a
/// pure function of the leaf key, the claimed value-or-absence, the proof,
/// and the claimed root.
pub open spec fn spec_verify(key: Seq<u8>, value: Option<Seq<u8>>, nodes: Seq<ProofNode>, root: Seq<u8>) -> bool {
    if nodes.len() == 0 {
        value is None && root == spec_empty_root()
    } else {
        &&& root == spec_entry_hash(nodes[0])
        &&& spec_chain_links(key, nodes)
        &&& spec_terminal(key, value, nodes[nodes.len() - 1])
    }
}

/// The view of an optional byte string.
pub open spec fn opt_bytes_view(v: Option<Vec<u8>>) -> Option<Seq<u8>> {
    match v {
        None => None,
        Some(b) => Some(b@),
    }
}

impl StateProof {
    /// Checks this proof against `root` for the claim that the leaf at
    /// `key` holds `value`, or that no leaf holds `key`.
    pub fn verify(&self, key: &Vec<u8>, value: &Option<Vec<u8>>, root: &HashValue) -> (r: bool)
        ensures
            r == spec_verify(key@, opt_bytes_view(*value), self.nodes@, root@),
    {
        let n = self.nodes.len();
        if n == 0 {
            let e = empty_root();
            return value.is_none() && hash_eq(root, &e);
        }
        let mut hashes: Vec<HashValue> = Vec::new();
        let mut i: usize = 0;
        while i < n
            invariant
                i <= n,
                n == self.nodes@.len(),
                hashes@.len() == i,
                forall|j: int| 0 <= j < i ==> #[trigger] hashes@[j]@ == spec_entry_hash(
                    self.nodes@[j],
                ),
            decreases n - i,
        {
            let e = &self.nodes[i];
            let enc = encode_node(&e.key, &e.value_hash, &e.left, &e.right);
            hashes.push(sha3_256(&enc));
            i += 1;
        }
        if !hash_eq(root, &hashes[0]) {
            return false;
        }
        let mut i: usize = 0;
        while i < n - 1
            invariant
                i <= n - 1,
                1 <= n,
                n == self.nodes@.len(),
                hashes@.len() == n,
                forall|j: int| 0 <= j < n ==> #[trigger] hashes@[j]@ == spec_entry_hash(
                    self.nodes@[j],
                ),
                forall|j: int| 0 <= j < i ==> #[trigger] spec_link(
                    key@,
                    self.nodes@[j],
                    self.nodes@[j + 1],
                ),
            decreases n - i,
        {
            let p = &self.nodes[i];
            if crate::bytes::bytes_lt(key, &p.key) {
                if !hash_eq(&p.left, &hashes[i + 1]) {
                    assert(!spec_link(key@, self.nodes@[i as int], self.nodes@[i as int + 1]));
                    return false;
                }
            } else if crate::bytes::bytes_lt(&p.key, key) {
                if !hash_eq(&p.right, &hashes[i + 1]) {
                    assert(!spec_link(key@, self.nodes@[i as int], self.nodes@[i as int + 1]));
                    return false;
                }
            } else {
                assert(!spec_link(key@, self.nodes@[i as int], self.nodes@[i as int + 1]));
                return false;
            }
            i += 1;
        }
        let last = &self.nodes[n - 1];
        match value {
            Some(v) => {
                let vh = sha3_256(v);
                crate::bytes::bytes_eq(&last.key, key) && hash_eq(&last.value_hash, &vh)
            },
            None => {
                let e = empty_root();
                if crate::bytes::bytes_lt(key, &last.key) {
                    hash_eq(&last.left, &e)
                } else if crate::bytes::bytes_lt(&last.key, key) {
                    hash_eq(&last.right, &e)
                } else {
                    false
                }
            },
        }
    }
}

} // verus!
