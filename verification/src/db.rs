//! The versioned authenticated store and the reader over it. Each committed
//! write produces a fresh immutable tree; the store retains every version by
//! its root, so many readers can query present or historical roots while a
//! writer appends new versions. Reads never mutate anything.

use crate::access_path::{
    encode_access_path, registry_access_path, spec_encode_access_path, spec_registry_key,
    table_item_access_path, AccessPath, AccountAddress, TableHandle,
};
use crate::account_state::{
    class_prefix, encode_entries, filter_entries, spec_account_state_ok,
    spec_account_state_set_ok, AccountState, AccountStateSet, RESOURCE_CLASS, TABLE_CLASS,
};
use crate::bytes::{clone_bytes, spec_lp};
use crate::hash::{hash_eq, sha3_256, HashValue};
use crate::state_proof::{
    opt_bytes_view, spec_verify, StateWithProof, StateWithTableItemProof,
};
use crate::tree::{spec_lookup, view_pairs, StateTree};
use vstd::prelude::*;

verus! {

/// The failures a query can end in. Absence of a key under a valid root is
/// not among them: it is an ordinary answer, carried with its proof.
#[derive(Clone, Copy, Debug, PartialEq, Eq, Structural)]
pub enum StateError {
    /// The requested historical root is not retained by the store.
    UnreachableRoot,
    /// Stored bytes do not have the shape the caller asked for.
    DecodeFailure,
}

/// One retained version: a tree and the root that identifies it.
struct Snapshot {
    root: HashValue,
    tree: StateTree,
}

/// The versioned store: every committed version of the state, newest last.
pub struct StateDb {
    snapshots: Vec<Snapshot>,
}

/// Every snapshot's recorded root is the root of its tree, and every tree
/// keeps the search order.
spec fn snaps_wf(s: Seq<Snapshot>) -> bool {
    forall|i: int|
        0 <= i < s.len() ==> (#[trigger] s[i].tree.wf() && s[i].root@ == s[i].tree.spec_root())
}

/// The newest retained tree with root `root`, if any.
spec fn tree_at(s: Seq<Snapshot>, root: Seq<u8>) -> Option<StateTree>
    decreases s.len(),
{
    if s.len() == 0 {
        None
    } else if s.last().root@ == root {
        Some(s.last().tree)
    } else {
        tree_at(s.drop_last(), root)
    }
}

/// A retained tree is well formed and has the root it was found under.
proof fn lemma_tree_at(s: Seq<Snapshot>, root: Seq<u8>)
    requires
        snaps_wf(s),
    ensures
        match tree_at(s, root) {
            Some(t) => t.wf() && t.spec_root() == root,
            None => true,
        },
    decreases s.len(),
{
    if s.len() > 0 && s.last().root@ != root {
        assert(snaps_wf(s.drop_last())) by {
            assert forall|i: int| 0 <= i < s.drop_last().len() implies (
            #[trigger] s.drop_last()[i].tree.wf() && s.drop_last()[i].root@
                == s.drop_last()[i].tree.spec_root()) by {
                assert(s.drop_last()[i] == s[i]);
            }
        }
        lemma_tree_at(s.drop_last(), root);
    }
}

/// Appending a snapshot leaves every other root's lookup unchanged.
proof fn lemma_tree_at_push(s: Seq<Snapshot>, snap: Snapshot, r: Seq<u8>)
    requires
        r != snap.root@,
    ensures
        tree_at(s.push(snap), r) == tree_at(s, r),
{
    assert(s.push(snap).last() == snap);
    assert(s.push(snap).drop_last() =~= s);
}

/// The view of an optional root selector: absent means "the current root".
pub open spec fn sel_view(root: Option<&HashValue>) -> Option<Seq<u8>> {
    match root {
        None => None,
        Some(h) => Some(h@),
    }
}

impl StateDb {
    /// At least one version exists and every snapshot is consistent.
    pub closed spec fn wf(self) -> bool {
        self.snapshots@.len() >= 1 && snaps_wf(self.snapshots@)
    }

    /// The newest version's tree.
    pub closed spec fn current_tree(self) -> StateTree {
        self.snapshots@.last().tree
    }

    /// The mapping of the newest version.
    pub open spec fn current_view(self) -> Map<Seq<u8>, Seq<u8>> {
        self.current_tree()@
    }

    /// The root identifying the newest version.
    pub closed spec fn current_root(self) -> Seq<u8> {
        self.snapshots@.last().root@
    }

    /// The newest retained tree with root `root`, if any.
    pub closed spec fn spec_tree_at(self, root: Seq<u8>) -> Option<StateTree> {
        tree_at(self.snapshots@, root)
    }

    /// Whether `root` is retained.
    pub open spec fn retained(self, root: Seq<u8>) -> bool {
        self.spec_tree_at(root).is_some()
    }

    /// The mapping of the retained version with root `root`, if any.
    pub open spec fn view_at(self, root: Seq<u8>) -> Option<Map<Seq<u8>, Seq<u8>>> {
        match self.spec_tree_at(root) {
            None => None,
            Some(t) => Some(t@),
        }
    }

    /// The tree a root selector picks: the current one, or a retained
    /// historical one.
    pub closed spec fn spec_tree_sel(self, sel: Option<Seq<u8>>) -> Option<StateTree> {
        match sel {
            None => Some(self.current_tree()),
            Some(r) => self.spec_tree_at(r),
        }
    }

    /// The mapping a root selector picks.
    pub open spec fn view_sel(self, sel: Option<Seq<u8>>) -> Option<Map<Seq<u8>, Seq<u8>>> {
        match self.spec_tree_sel(sel) {
            None => None,
            Some(t) => Some(t@),
        }
    }

    /// The entry list a root selector picks.
    pub open spec fn entries_sel(self, sel: Option<Seq<u8>>) -> Option<Seq<(Seq<u8>, Seq<u8>)>> {
        match self.spec_tree_sel(sel) {
            None => None,
            Some(t) => Some(t.spec_entries()),
        }
    }

    /// The root a selector stands for.
    pub open spec fn root_sel(self, sel: Option<Seq<u8>>) -> Seq<u8> {
        match sel {
            None => self.current_root(),
            Some(r) => r,
        }
    }

    /// Builds a store holding one empty version.
    pub fn new() -> (db: Self)
        ensures
            db.wf(),
            db.current_view() == Map::<Seq<u8>, Seq<u8>>::empty(),
    {
        let tree = StateTree::new();
        let root = tree.root();
        let mut snapshots: Vec<Snapshot> = Vec::new();
        snapshots.push(Snapshot { root, tree });
        StateDb { snapshots }
    }

    /// Finds the retained tree with root `root`.
    fn find_tree(&self, root: &HashValue) -> (r: Option<&StateTree>)
        requires
            self.wf(),
        ensures
            match r {
                Some(t) => self.spec_tree_at(root@) == Some(*t),
                None => self.spec_tree_at(root@).is_none(),
            },
    {
        let n = self.snapshots.len();
        proof {
            assert(self.snapshots@.take(n as int) =~= self.snapshots@);
        }
        let mut i: usize = n;
        while i > 0
            invariant
                i <= n,
                n == self.snapshots@.len(),
                tree_at(self.snapshots@, root@) == tree_at(self.snapshots@.take(i as int), root@),
            decreases i,
        {
            let s = &self.snapshots[i - 1];
            proof {
                assert(self.snapshots@.take(i as int).last() == self.snapshots@[i - 1]);
            }
            if hash_eq(&s.root, root) {
                return Some(&s.tree);
            }
            proof {
                assert(self.snapshots@.take(i as int).drop_last() =~= self.snapshots@.take(
                    i - 1 as int,
                ));
            }
            i -= 1;
        }
        proof {
            assert(self.snapshots@.take(0).len() == 0);
        }
        None
    }

    /// The newest version's tree.
    fn current(&self) -> (t: &StateTree)
        requires
            self.wf(),
        ensures
            t@ == self.current_view(),
            t.wf(),
            t.spec_root() == self.current_root(),
            *t == self.current_tree(),
    {
        let n = self.snapshots.len();
        proof {
            assert(self.snapshots@.len() >= 1);
            assert(snaps_wf(self.snapshots@));
            let k: int = self.snapshots@.len() - 1;
            assert(0 <= k < self.snapshots@.len());
            assert(self.snapshots@[k].tree.wf());
            assert(self.snapshots@[k].root@ == self.snapshots@[k].tree.spec_root());
            assert(self.snapshots@[k] == self.snapshots@.last());
        }
        &self.snapshots[n - 1].tree
    }

    /// The tree a root selector picks; an unretained historical root is the
    /// distinct failure `UnreachableRoot`, never a silent fallback.
    fn tree_sel(&self, root: Option<&HashValue>) -> (r: Result<&StateTree, StateError>)
        requires
            self.wf(),
        ensures
            match r {
                Ok(t) => {
                    &&& self.spec_tree_sel(sel_view(root)) == Some(*t)
                    &&& self.view_sel(sel_view(root)) == Some(t@)
                    &&& t.wf()
                    &&& t.spec_root() == self.root_sel(sel_view(root))
                },
                Err(e) => e == StateError::UnreachableRoot && self.spec_tree_sel(
                    sel_view(root),
                ).is_none(),
            },
    {
        match root {
            None => Ok(self.current()),
            Some(h) => {
                proof {
                    lemma_tree_at(self.snapshots@, h@);
                }
                match self.find_tree(h) {
                    Some(t) => Ok(t),
                    None => Err(StateError::UnreachableRoot),
                }
            },
        }
    }

    /// The current root: what a caller pins to read a consistent version.
    /// Reading it changes nothing, so two calls with no intervening write
    /// return the same root.
    pub fn state_root(&self) -> (r: HashValue)
        requires
            self.wf(),
        ensures
            r@ == self.current_root(),
    {
        let n = self.snapshots.len();
        proof {
            assert(self.snapshots@[n - 1] == self.snapshots@.last());
        }
        self.snapshots[n - 1].root.duplicate()
    }

    /// The raw value at `access_path` in the current version, or its
    /// absence.
    pub fn get(&self, access_path: &AccessPath) -> (r: Option<Vec<u8>>)
        requires
            self.wf(),
        ensures
            opt_bytes_view(r) == spec_lookup(
                self.current_view(),
                spec_encode_access_path(*access_path),
            ),
    {
        let key = encode_access_path(access_path);
        self.current().get(&key)
    }

    /// Value-or-absence at `access_path` in the version `root` selects,
    /// with a proof that checks against that version's root.
    pub fn get_with_proof_sel(&self, access_path: &AccessPath, root: Option<&HashValue>) -> (r:
        Result<StateWithProof, StateError>)
        requires
            self.wf(),
        ensures
            match r {
                Ok(swp) => {
                    &&& self.view_sel(sel_view(root)).is_some()
                    &&& opt_bytes_view(swp.state) == spec_lookup(
                        self.view_sel(sel_view(root)).unwrap(),
                        spec_encode_access_path(*access_path),
                    )
                    &&& spec_verify(
                        spec_encode_access_path(*access_path),
                        opt_bytes_view(swp.state),
                        swp.proof.nodes@,
                        self.root_sel(sel_view(root)),
                    )
                },
                Err(e) => e == StateError::UnreachableRoot && self.view_sel(
                    sel_view(root),
                ).is_none(),
            },
    {
        let tree = match self.tree_sel(root) {
            Ok(t) => t,
            Err(e) => {
                return Err(e);
            },
        };
        let key = encode_access_path(access_path);
        let (state, proof) = tree.get_with_proof(&key);
        Ok(StateWithProof { state, proof })
    }

    /// Value-or-absence at `access_path` in the current version, with a
    /// proof that checks against the current root.
    pub fn get_with_proof(&self, access_path: &AccessPath) -> (r: StateWithProof)
        requires
            self.wf(),
        ensures
            opt_bytes_view(r.state) == spec_lookup(
                self.current_view(),
                spec_encode_access_path(*access_path),
            ),
            spec_verify(
                spec_encode_access_path(*access_path),
                opt_bytes_view(r.state),
                r.proof.nodes@,
                self.current_root(),
            ),
    {
        match self.get_with_proof_sel(access_path, None) {
            Ok(swp) => swp,
            Err(_) => unreached(),
        }
    }

    /// Value-or-absence at `access_path` in the retained version with root
    /// `root`, with a proof that checks against exactly that root.
    pub fn get_with_proof_by_root(&self, access_path: &AccessPath, root: &HashValue) -> (r: Result<
        StateWithProof,
        StateError,
    >)
        requires
            self.wf(),
        ensures
            match r {
                Ok(swp) => {
                    &&& self.view_at(root@).is_some()
                    &&& opt_bytes_view(swp.state) == spec_lookup(
                        self.view_at(root@).unwrap(),
                        spec_encode_access_path(*access_path),
                    )
                    &&& spec_verify(
                        spec_encode_access_path(*access_path),
                        opt_bytes_view(swp.state),
                        swp.proof.nodes@,
                        root@,
                    )
                },
                Err(e) => e == StateError::UnreachableRoot && !self.retained(root@),
            },
    {
        self.get_with_proof_sel(access_path, Some(root))
    }

    /// Commits a new version: the current mapping with `access_path` bound
    /// to `value`. Every root retained before stays readable unchanged.
    #[verifier::rlimit(50)]
    pub fn put(&mut self, access_path: &AccessPath, value: &Vec<u8>)
        requires
            old(self).wf(),
        ensures
            final(self).wf(),
            final(self).current_view() == old(self).current_view().insert(
                spec_encode_access_path(*access_path),
                value@,
            ),
            final(self).retained(final(self).current_root()),
            final(self).view_at(final(self).current_root()) == Some(final(self).current_view()),
            forall|r: Seq<u8>|
                r != final(self).current_root() ==> final(self).view_at(r) == old(self).view_at(r),
    {
        let key = encode_access_path(access_path);
        let n = self.snapshots.len();
        proof {
            let k: int = self.snapshots@.len() - 1;
            assert(self.snapshots@[k].tree.wf());
            assert(self.snapshots@[k].root@ == self.snapshots@[k].tree.spec_root());
            assert(self.snapshots@[k] == self.snapshots@.last());
        }
        let tree = self.snapshots[n - 1].tree.inserted(&key, value);
        let root = tree.root();
        let ghost pre = self.snapshots@;
        let ghost snap_g = Snapshot { root: root, tree: tree };
        self.snapshots.push(Snapshot { root, tree });
        proof {
            let post = self.snapshots@;
            assert(post == pre.push(snap_g));
            assert(post.last() == snap_g);
            assert(snaps_wf(post)) by {
                assert forall|i: int| 0 <= i < post.len() implies (#[trigger] post[i].tree.wf()
                    && post[i].root@ == post[i].tree.spec_root()) by {
                    if i < post.len() - 1 {
                        assert(post[i] == pre[i]);
                        assert(pre[i].tree.wf() && pre[i].root@ == pre[i].tree.spec_root());
                    } else {
                        assert(post[i] == snap_g);
                    }
                }
            }
            assert(tree_at(post, snap_g.root@) == Some(snap_g.tree));
            assert forall|r: Seq<u8>| r != self.current_root() implies self.view_at(r) == old(
                self,
            ).view_at(r) by {
                lemma_tree_at_push(pre, snap_g, r);
            }
        }
    }

    /// Value-or-absence of the item of table `handle` at `key` in the
    /// version `root` selects, with both membership proofs: the registry
    /// lookup resolving the handle to its owner, and, where it resolved,
    /// the item lookup under the owner.
    pub fn get_with_table_item_proof_sel(
        &self,
        handle: &TableHandle,
        key: &Vec<u8>,
        root: Option<&HashValue>,
    ) -> (r: Result<StateWithTableItemProof, StateError>)
        requires
            self.wf(),
        ensures
            match r {
                Ok(p) => self.view_sel(sel_view(root)).is_some() && spec_table_item_proof_ok(
                    self.view_sel(sel_view(root)).unwrap(),
                    self.root_sel(sel_view(root)),
                    handle@,
                    key@,
                    p,
                ),
                Err(e) => match e {
                    StateError::UnreachableRoot => self.view_sel(sel_view(root)).is_none(),
                    StateError::DecodeFailure => self.view_sel(sel_view(root)).is_some() && (
                    match spec_table_owner(self.view_sel(sel_view(root)).unwrap(), handle@) {
                        Some(o) => o.len() != 16,
                        None => false,
                    }),
                },
            },
    {
        let tree = match self.tree_sel(root) {
            Ok(t) => t,
            Err(e) => {
                return Err(e);
            },
        };
        let reg_path = registry_access_path(handle);
        let reg_key = encode_access_path(&reg_path);
        let (owner_opt, reg_proof) = tree.get_with_proof(&reg_key);
        let item = match &owner_opt {
            None => None,
            Some(ob) => {
                if ob.len() != 16 {
                    return Err(StateError::DecodeFailure);
                }
                let owner = AccountAddress::new(clone_bytes(ob));
                let item_path = table_item_access_path(
                    owner,
                    handle.duplicate(),
                    clone_bytes(key),
                );
                let item_key = encode_access_path(&item_path);
                proof {
                    assert(spec_encode_access_path(item_path) =~= spec_table_item_key(
                        ob@,
                        handle@,
                        key@,
                    ));
                }
                let (iv, ip) = tree.get_with_proof(&item_key);
                Some(StateWithProof { state: iv, proof: ip })
            },
        };
        Ok(StateWithTableItemProof {
            registry: StateWithProof { state: owner_opt, proof: reg_proof },
            item,
        })
    }

    /// Table item with proofs against the current root. Resolving a handle
    /// the registry does not hold is not an error: the answer is absent,
    /// with the registry non-membership proof.
    pub fn get_with_table_item_proof(&self, handle: &TableHandle, key: &Vec<u8>) -> (r: Result<
        StateWithTableItemProof,
        StateError,
    >)
        requires
            self.wf(),
        ensures
            match r {
                Ok(p) => spec_table_item_proof_ok(
                    self.current_view(),
                    self.current_root(),
                    handle@,
                    key@,
                    p,
                ),
                Err(e) => e == StateError::DecodeFailure && (match spec_table_owner(
                    self.current_view(),
                    handle@,
                ) {
                    Some(o) => o.len() != 16,
                    None => false,
                }),
            },
    {
        self.get_with_table_item_proof_sel(handle, key, None)
    }

    /// Table item with proofs against the retained version with root
    /// `root`.
    pub fn get_with_table_item_proof_by_root(
        &self,
        handle: &TableHandle,
        key: &Vec<u8>,
        root: &HashValue,
    ) -> (r: Result<StateWithTableItemProof, StateError>)
        requires
            self.wf(),
        ensures
            match r {
                Ok(p) => self.view_at(root@).is_some() && spec_table_item_proof_ok(
                    self.view_at(root@).unwrap(),
                    root@,
                    handle@,
                    key@,
                    p,
                ),
                Err(e) => match e {
                    StateError::UnreachableRoot => !self.retained(root@),
                    StateError::DecodeFailure => self.view_at(root@).is_some() && (
                    match spec_table_owner(self.view_at(root@).unwrap(), handle@) {
                        Some(o) => o.len() != 16,
                        None => false,
                    }),
                },
            },
    {
        self.get_with_table_item_proof_sel(handle, key, Some(root))
    }

    /// The decoded state of `address` in the version `root` selects.
    pub fn get_account_state_sel(&self, address: &AccountAddress, root: Option<&HashValue>) -> (r:
        Result<Option<AccountState>, StateError>)
        requires
            self.wf(),
        ensures
            match r {
                Ok(st) => self.entries_sel(sel_view(root)).is_some() && spec_account_state_ok(
                    self.entries_sel(sel_view(root)).unwrap(),
                    address@,
                    st,
                ),
                Err(e) => e == StateError::UnreachableRoot && self.entries_sel(
                    sel_view(root),
                ).is_none(),
            },
    {
        let tree = match self.tree_sel(root) {
            Ok(t) => t,
            Err(e) => {
                return Err(e);
            },
        };
        let entries = tree.entries();
        let pr = class_prefix(&address.bytes, RESOURCE_CLASS);
        let pt = class_prefix(&address.bytes, TABLE_CLASS);
        let res = filter_entries(&entries, &pr);
        let tab = filter_entries(&entries, &pt);
        proof {
            assert(view_pairs(res@).len() == res@.len());
            assert(view_pairs(tab@).len() == tab@.len());
        }
        if res.len() == 0 && tab.len() == 0 {
            Ok(None)
        } else {
            let resource_root = if res.len() == 0 {
                None
            } else {
                Some(sha3_256(&encode_entries(&res)))
            };
            let table_root = if tab.len() == 0 {
                None
            } else {
                Some(sha3_256(&encode_entries(&tab)))
            };
            Ok(Some(AccountState { resource_root, table_root }))
        }
    }

    /// The decoded state of `address` in the current version, or absence
    /// for an account with no entries.
    pub fn get_account_state(&self, address: &AccountAddress) -> (r: Option<AccountState>)
        requires
            self.wf(),
        ensures
            spec_account_state_ok(self.entries_sel(None).unwrap(), address@, r),
    {
        match self.get_account_state_sel(address, None) {
            Ok(st) => st,
            Err(_) => unreached(),
        }
    }

    /// The decoded state of `address` in the retained version with root
    /// `root`.
    pub fn get_account_state_by_root(&self, address: &AccountAddress, root: &HashValue) -> (r:
        Result<Option<AccountState>, StateError>)
        requires
            self.wf(),
        ensures
            match r {
                Ok(st) => self.entries_sel(Some(root@)).is_some() && spec_account_state_ok(
                    self.entries_sel(Some(root@)).unwrap(),
                    address@,
                    st,
                ),
                Err(e) => e == StateError::UnreachableRoot && !self.retained(root@),
            },
    {
        proof {
            lemma_tree_at(self.snapshots@, root@);
        }
        self.get_account_state_sel(address, Some(root))
    }

    /// The full snapshot of `address` in the version `state_root` selects:
    /// an absent root selector reads the current version.
    pub fn get_account_state_set(&self, address: &AccountAddress, state_root: Option<HashValue>)
        -> (r: Result<Option<AccountStateSet>, StateError>)
        requires
            self.wf(),
        ensures
            match r {
                Ok(s) => self.entries_sel(opt_hash_view(state_root)).is_some()
                    && spec_account_state_set_ok(
                    self.entries_sel(opt_hash_view(state_root)).unwrap(),
                    address@,
                    s,
                ),
                Err(e) => e == StateError::UnreachableRoot && self.entries_sel(
                    opt_hash_view(state_root),
                ).is_none(),
            },
    {
        let tree = match &state_root {
            None => {
                match self.tree_sel(None) {
                    Ok(t) => t,
                    Err(_) => unreached(),
                }
            },
            Some(h) => {
                match self.tree_sel(Some(h)) {
                    Ok(t) => t,
                    Err(e) => {
                        return Err(e);
                    },
                }
            },
        };
        let entries = tree.entries();
        let pr = class_prefix(&address.bytes, RESOURCE_CLASS);
        let pt = class_prefix(&address.bytes, TABLE_CLASS);
        let res = filter_entries(&entries, &pr);
        let tab = filter_entries(&entries, &pt);
        proof {
            assert(view_pairs(res@).len() == res@.len());
            assert(view_pairs(tab@).len() == tab@.len());
        }
        if res.len() == 0 && tab.len() == 0 {
            Ok(None)
        } else {
            Ok(Some(AccountStateSet { resources: res, tables: tab }))
        }
    }
}

/// The leaf key of the item of table `handle` at `key`, once the handle has
/// resolved to `owner`.
pub open spec fn spec_table_item_key(owner: Seq<u8>, handle: Seq<u8>, key: Seq<u8>) -> Seq<u8> {
    spec_lp(owner) + (seq![1u8] + spec_lp(handle) + spec_lp(key))
}

/// The registry's answer for `handle` in one version: the owning account's
/// address bytes, or absence for an unregistered handle.
pub open spec fn spec_table_owner(m: Map<Seq<u8>, Seq<u8>>, handle: Seq<u8>) -> Option<Seq<u8>> {
    spec_lookup(m, spec_registry_key(handle))
}

/// What a table-item answer must say: the registry part reports exactly the
/// registry's answer with a proof against the version's root; the item part
/// exists exactly where the handle resolved and then reports the item's
/// value-or-absence with a proof against the same root.
pub open spec fn spec_table_item_proof_ok(
    m: Map<Seq<u8>, Seq<u8>>,
    root: Seq<u8>,
    handle: Seq<u8>,
    key: Seq<u8>,
    p: StateWithTableItemProof,
) -> bool {
    &&& opt_bytes_view(p.registry.state) == spec_table_owner(m, handle)
    &&& spec_verify(
        spec_registry_key(handle),
        opt_bytes_view(p.registry.state),
        p.registry.proof.nodes@,
        root,
    )
    &&& match spec_table_owner(m, handle) {
        None => p.item.is_none(),
        Some(owner) => match p.item {
            None => false,
            Some(it) => {
                &&& opt_bytes_view(it.state) == spec_lookup(m, spec_table_item_key(owner, handle, key))
                &&& spec_verify(
                    spec_table_item_key(owner, handle, key),
                    opt_bytes_view(it.state),
                    it.proof.nodes@,
                    root,
                )
            },
        },
    }
}

/// The view of an owned optional digest.
pub open spec fn opt_hash_view(o: Option<HashValue>) -> Option<Seq<u8>> {
    crate::account_state::opt_hash_view(o)
}

/// What a write makes true of later reads, stated over the versioned
/// store's model: after `put` binds a key to a value, looking that key up
/// in the new version answers exactly that value, and every other key
/// answers what it answered before. Together with the reads' own
/// contracts, which add a proof checking against the new root, this is the
/// round trip from writing a value to reading it back verifiably.
pub proof fn lemma_write_then_read(
    m: Map<Seq<u8>, Seq<u8>>,
    key: Seq<u8>,
    value: Seq<u8>,
    other: Seq<u8>,
)
    ensures
        spec_lookup(m.insert(key, value), key) == Some(value),
        other != key ==> spec_lookup(m.insert(key, value), other) == spec_lookup(m, other),
{
}

/// Reading an account snapshot with no root selector is equivalent to
/// reading it pinned to the current root: both select the same version, so
/// the same answer is correct for both.
pub proof fn lemma_account_state_set_default_root(
    db: StateDb,
    addr: Seq<u8>,
    r: Option<AccountStateSet>,
)
    requires
        db.wf(),
    ensures
        db.entries_sel(None) == db.entries_sel(Some(db.current_root())),
        spec_account_state_set_ok(db.entries_sel(None).unwrap(), addr, r)
            == spec_account_state_set_ok(
            db.entries_sel(Some(db.current_root())).unwrap(),
            addr,
            r,
        ),
{
    let s = db.snapshots@;
    assert(s.last().root@ == db.current_root());
    assert(tree_at(s, db.current_root()) == Some(s.last().tree));
}

} // verus!
