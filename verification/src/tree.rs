//! The authenticated state tree: a search tree ordered by the lexicographic
//! order of leaf keys, in which every node is summarized by a digest of its
//! key, its value's digest and its children's roots. A lookup can therefore
//! hand back, besides the value or its absence, the chain of summaries that
//! lets anyone recompute the tree's root. Trees are never mutated: an
//! insertion builds a fresh tree, so every committed root stays readable.

use crate::bytes::{bytes_eq, bytes_lt, clone_bytes, lemma_lex_trichotomy, lex_lt};
use crate::hash::{hash_of, sha3_256, HashValue};
use crate::state_proof::{
    empty_root, encode_node, opt_bytes_view, spec_chain_links, spec_empty_root, spec_entry_hash,
    spec_link, spec_node_enc, spec_terminal, spec_verify, ProofNode, StateProof,
};
use vstd::prelude::*;

verus! {

/// The value at `key` in `m`, or its absence.
pub open spec fn spec_lookup(m: Map<Seq<u8>, Seq<u8>>, key: Seq<u8>) -> Option<Seq<u8>> {
    if m.dom().contains(key) {
        Some(m[key])
    } else {
        None
    }
}

struct Node {
    key: Vec<u8>,
    value: Vec<u8>,
    left: Option<Box<Node>>,
    right: Option<Box<Node>>,
}

/// One immutable version of the whole state: a key/value mapping with a
/// cryptographic root.
pub struct StateTree {
    root: Option<Box<Node>>,
}

impl Node {
    spec fn optional_as_map(node: Option<Box<Node>>) -> Map<Seq<u8>, Seq<u8>>
        decreases node,
    {
        match node {
            None => Map::empty(),
            Some(n) => n.as_map(),
        }
    }

    spec fn as_map(self) -> Map<Seq<u8>, Seq<u8>>
        decreases self,
    {
        Node::optional_as_map(self.left).union_prefer_right(
            Node::optional_as_map(self.right),
        ).insert(self.key@, self.value@)
    }

    spec fn wf(self) -> bool
        decreases self,
    {
        &&& (forall|k| Node::optional_as_map(self.left).dom().contains(k) ==> lex_lt(k, self.key@))
        &&& (forall|k| Node::optional_as_map(self.right).dom().contains(k) ==> lex_lt(self.key@, k))
        &&& (match self.left {
            Some(n) => n.wf(),
            None => true,
        })
        &&& (match self.right {
            Some(n) => n.wf(),
            None => true,
        })
    }

    spec fn opt_wf(node: Option<Box<Node>>) -> bool {
        match node {
            Some(n) => n.wf(),
            None => true,
        }
    }
}

/// The root of the subtree at `node`.
spec fn spec_root_opt(node: Option<Box<Node>>) -> Seq<u8>
    decreases node,
{
    match node {
        None => spec_empty_root(),
        Some(n) => hash_of(
            spec_node_enc(
                n.key@,
                hash_of(n.value@),
                spec_root_opt(n.left),
                spec_root_opt(n.right),
            ),
        ),
    }
}

/// Computes the root of the subtree at `node`.
fn root_opt(node: &Option<Box<Node>>) -> (r: HashValue)
    ensures
        r@ == spec_root_opt(*node),
    decreases node,
{
    match node {
        None => empty_root(),
        Some(n) => {
            let vh = sha3_256(&n.value);
            let lh = root_opt(&n.left);
            let rh = root_opt(&n.right);
            let enc = encode_node(&n.key, &vh, &lh, &rh);
            sha3_256(&enc)
        },
    }
}

/// Builds a structurally fresh copy of the subtree at `node`, with the same
/// mapping, the same root and the same well-formedness.
fn clone_opt(node: &Option<Box<Node>>) -> (r: Option<Box<Node>>)
    ensures
        Node::optional_as_map(r) == Node::optional_as_map(*node),
        Node::opt_wf(*node) ==> Node::opt_wf(r),
        spec_root_opt(r) == spec_root_opt(*node),
    decreases node,
{
    match node {
        None => None,
        Some(n) => {
            let left = clone_opt(&n.left);
            let right = clone_opt(&n.right);
            let out = Node { key: clone_bytes(&n.key), value: clone_bytes(&n.value), left, right };
            Some(Box::new(out))
        },
    }
}

/// Builds a fresh subtree equal to the one at `node` except that `key` now
/// maps to `value`.
fn insert_opt(node: &Option<Box<Node>>, key: &Vec<u8>, value: &Vec<u8>) -> (r: Option<Box<Node>>)
    requires
        Node::opt_wf(*node),
    ensures
        Node::opt_wf(r),
        Node::optional_as_map(r) == Node::optional_as_map(*node).insert(key@, value@),
    decreases node,
{
    match node {
        None => {
            let out = Node {
                key: clone_bytes(key),
                value: clone_bytes(value),
                left: None,
                right: None,
            };
            proof {
                assert(out.as_map() =~= Node::optional_as_map(*node).insert(key@, value@));
            }
            Some(Box::new(out))
        },
        Some(n) => {
            if bytes_eq(key, &n.key) {
                let out = Node {
                    key: clone_bytes(&n.key),
                    value: clone_bytes(value),
                    left: clone_opt(&n.left),
                    right: clone_opt(&n.right),
                };
                proof {
                    assert(out.as_map() =~= Node::optional_as_map(*node).insert(key@, value@));
                }
                Some(Box::new(out))
            } else if bytes_lt(key, &n.key) {
                proof {
                    lemma_lex_trichotomy(key@, n.key@);
                }
                let out = Node {
                    key: clone_bytes(&n.key),
                    value: clone_bytes(&n.value),
                    left: insert_opt(&n.left, key, value),
                    right: clone_opt(&n.right),
                };
                proof {
                    if Node::optional_as_map(n.right).dom().contains(key@) {
                        assert(lex_lt(n.key@, key@));
                    }
                    assert(out.as_map() =~= Node::optional_as_map(*node).insert(key@, value@));
                }
                Some(Box::new(out))
            } else {
                proof {
                    lemma_lex_trichotomy(key@, n.key@);
                }
                let out = Node {
                    key: clone_bytes(&n.key),
                    value: clone_bytes(&n.value),
                    left: clone_opt(&n.left),
                    right: insert_opt(&n.right, key, value),
                };
                proof {
                    if Node::optional_as_map(n.left).dom().contains(key@) {
                        assert(lex_lt(key@, n.key@));
                    }
                    assert(out.as_map() =~= Node::optional_as_map(*node).insert(key@, value@));
                }
                Some(Box::new(out))
            }
        },
    }
}

/// Looks `key` up in the subtree at `node` and collects, from this node
/// down, the chain of summaries that checks the answer against the
/// subtree's root.
fn get_with_proof_opt(node: &Option<Box<Node>>, key: &Vec<u8>) -> (res: (
    Option<Vec<u8>>,
    Vec<ProofNode>,
))
    requires
        Node::opt_wf(*node),
    ensures
        opt_bytes_view(res.0) == spec_lookup(Node::optional_as_map(*node), key@),
        spec_verify(key@, opt_bytes_view(res.0), res.1@, spec_root_opt(*node)),
    decreases node,
{
    match node {
        None => (None, Vec::new()),
        Some(n) => {
            let vh = sha3_256(&n.value);
            let lh = root_opt(&n.left);
            let rh = root_opt(&n.right);
            let me = ProofNode { key: clone_bytes(&n.key), value_hash: vh, left: lh, right: rh };
            proof {
                assert(spec_entry_hash(me) == spec_root_opt(*node));
            }
            if bytes_eq(key, &n.key) {
                let mut nodes: Vec<ProofNode> = Vec::new();
                nodes.push(me);
                let value = Some(clone_bytes(&n.value));
                proof {
                    lemma_lex_trichotomy(key@, n.key@);
                    if Node::optional_as_map(n.left).dom().contains(key@) {
                        assert(lex_lt(key@, n.key@));
                    }
                    if Node::optional_as_map(n.right).dom().contains(key@) {
                        assert(lex_lt(n.key@, key@));
                    }
                }
                (value, nodes)
            } else if bytes_lt(key, &n.key) {
                proof {
                    lemma_lex_trichotomy(key@, n.key@);
                    if Node::optional_as_map(n.right).dom().contains(key@) {
                        assert(lex_lt(n.key@, key@));
                    }
                }
                let (value, mut nodes) = get_with_proof_opt(&n.left, key);
                let ghost pre = nodes@;
                nodes.insert(0, me);
                proof {
                    pre.insert_ensures(0, me);
                    assert(nodes@[0] == me);
                    if pre.len() == 0 {
                        assert(spec_root_opt(n.left) == spec_empty_root());
                        assert(spec_terminal(key@, opt_bytes_view(value), me));
                    } else {
                        assert(spec_link(key@, me, nodes@[1]));
                        assert forall|i: int| 0 <= i < nodes@.len() - 1 implies #[trigger] spec_link(
                            key@,
                            nodes@[i],
                            nodes@[i + 1],
                        ) by {
                            if i > 0 {
                                assert(nodes@[i] == pre[i - 1]);
                                assert(nodes@[i + 1] == pre[i]);
                                assert(spec_link(key@, pre[i - 1], pre[i]));
                            }
                        }
                        assert(nodes@[nodes@.len() - 1] == pre[pre.len() - 1]);
                    }
                    assert(spec_verify(key@, opt_bytes_view(value), nodes@, spec_root_opt(*node)));
                }
                (value, nodes)
            } else {
                proof {
                    lemma_lex_trichotomy(key@, n.key@);
                    if Node::optional_as_map(n.left).dom().contains(key@) {
                        assert(lex_lt(key@, n.key@));
                    }
                }
                let (value, mut nodes) = get_with_proof_opt(&n.right, key);
                let ghost pre = nodes@;
                nodes.insert(0, me);
                proof {
                    pre.insert_ensures(0, me);
                    assert(nodes@[0] == me);
                    if pre.len() == 0 {
                        assert(spec_root_opt(n.right) == spec_empty_root());
                        assert(spec_terminal(key@, opt_bytes_view(value), me));
                    } else {
                        assert(spec_link(key@, me, nodes@[1]));
                        assert forall|i: int| 0 <= i < nodes@.len() - 1 implies #[trigger] spec_link(
                            key@,
                            nodes@[i],
                            nodes@[i + 1],
                        ) by {
                            if i > 0 {
                                assert(nodes@[i] == pre[i - 1]);
                                assert(nodes@[i + 1] == pre[i]);
                                assert(spec_link(key@, pre[i - 1], pre[i]));
                            }
                        }
                        assert(nodes@[nodes@.len() - 1] == pre[pre.len() - 1]);
                    }
                    assert(spec_verify(key@, opt_bytes_view(value), nodes@, spec_root_opt(*node)));
                }
                (value, nodes)
            }
        },
    }
}

/// The in-order sequence of (key, value) pairs of the subtree at `node`.
spec fn spec_entries_opt(node: Option<Box<Node>>) -> Seq<(Seq<u8>, Seq<u8>)>
    decreases node,
{
    match node {
        None => Seq::empty(),
        Some(n) => spec_entries_opt(n.left) + seq![(n.key@, n.value@)] + spec_entries_opt(n.right),
    }
}

/// The views of a sequence of owned byte-string pairs.
pub open spec fn view_pairs(s: Seq<(Vec<u8>, Vec<u8>)>) -> Seq<(Seq<u8>, Seq<u8>)> {
    s.map_values(|p: (Vec<u8>, Vec<u8>)| (p.0@, p.1@))
}

/// Appends the in-order entries of the subtree at `node` to `out`.
fn entries_opt(node: &Option<Box<Node>>, out: &mut Vec<(Vec<u8>, Vec<u8>)>)
    ensures
        view_pairs(final(out)@) == view_pairs(old(out)@) + spec_entries_opt(*node),
    decreases node,
{
    match node {
        None => {
            proof {
                assert(view_pairs(out@) =~= view_pairs(out@) + spec_entries_opt(*node));
            }
        },
        Some(n) => {
            entries_opt(&n.left, out);
            let ghost mid = out@;
            out.push((clone_bytes(&n.key), clone_bytes(&n.value)));
            proof {
                assert(view_pairs(out@) =~= view_pairs(mid) + seq![(n.key@, n.value@)]);
            }
            entries_opt(&n.right, out);
            proof {
                assert(view_pairs(out@) =~= view_pairs(old(out)@) + spec_entries_opt(*node));
            }
        },
    }
}

impl StateTree {
    /// Whether the search order of the tree is intact.
    pub closed spec fn wf(self) -> bool {
        Node::opt_wf(self.root)
    }

    /// The mapping this version of the state holds.
    pub closed spec fn as_map(self) -> Map<Seq<u8>, Seq<u8>> {
        Node::optional_as_map(self.root)
    }

    /// The cryptographic root identifying this version.
    pub closed spec fn spec_root(self) -> Seq<u8> {
        spec_root_opt(self.root)
    }

    /// The in-order (key, value) entries of this version.
    pub closed spec fn spec_entries(self) -> Seq<(Seq<u8>, Seq<u8>)> {
        spec_entries_opt(self.root)
    }

    /// Builds the empty state.
    pub fn new() -> (t: Self)
        ensures
            t.wf(),
            t@ == Map::<Seq<u8>, Seq<u8>>::empty(),
            t.spec_root() == spec_empty_root(),
    {
        StateTree { root: None }
    }

    /// Computes the root of this version.
    pub fn root(&self) -> (r: HashValue)
        ensures
            r@ == self.spec_root(),
    {
        root_opt(&self.root)
    }

    /// Builds the next version: the same mapping except that `key` now
    /// maps to `value`. This version is left untouched.
    pub fn inserted(&self, key: &Vec<u8>, value: &Vec<u8>) -> (t: StateTree)
        requires
            self.wf(),
        ensures
            t.wf(),
            t@ == self@.insert(key@, value@),
    {
        StateTree { root: insert_opt(&self.root, key, value) }
    }

    /// Looks `key` up, returning the value or its absence together with a
    /// proof that checks against this version's root.
    pub fn get_with_proof(&self, key: &Vec<u8>) -> (res: (Option<Vec<u8>>, StateProof))
        requires
            self.wf(),
        ensures
            opt_bytes_view(res.0) == spec_lookup(self@, key@),
            spec_verify(key@, opt_bytes_view(res.0), res.1.nodes@, self.spec_root()),
    {
        let (value, nodes) = get_with_proof_opt(&self.root, key);
        (value, StateProof { nodes })
    }

    /// Looks `key` up, returning the value or its absence.
    pub fn get(&self, key: &Vec<u8>) -> (res: Option<Vec<u8>>)
        requires
            self.wf(),
        ensures
            opt_bytes_view(res) == spec_lookup(self@, key@),
    {
        let (value, _) = get_with_proof_opt(&self.root, key);
        value
    }

    /// The in-order (key, value) entries of this version.
    pub fn entries(&self) -> (r: Vec<(Vec<u8>, Vec<u8>)>)
        ensures
            view_pairs(r@) == self.spec_entries(),
    {
        let mut out: Vec<(Vec<u8>, Vec<u8>)> = Vec::new();
        proof {
            assert(view_pairs(Seq::<(Vec<u8>, Vec<u8>)>::empty()) =~= Seq::<(
                Seq<u8>,
                Seq<u8>,
            )>::empty());
        }
        entries_opt(&self.root, &mut out);
        proof {
            assert(view_pairs(out@) =~= self.spec_entries());
        }
        out
    }

    /// Builds a structurally fresh version with the same mapping and root.
    pub fn duplicate(&self) -> (t: StateTree)
        ensures
            t@ == self@,
            self.wf() ==> t.wf(),
            t.spec_root() == self.spec_root(),
    {
        StateTree { root: clone_opt(&self.root) }
    }
}

impl View for StateTree {
    type V = Map<Seq<u8>, Seq<u8>>;

    open spec fn view(&self) -> Map<Seq<u8>, Seq<u8>> {
        self.as_map()
    }
}

} // verus!
