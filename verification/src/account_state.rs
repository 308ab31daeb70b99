//! The account state model: what one account holds. An account's leaves all
//! share the length-prefixed address as their key prefix, with one class
//! byte telling resources from table items. `AccountState` summarizes the
//! two classes by their sub-tree roots; `AccountStateSet` is the full
//! snapshot of an account's entries, as used for bulk export.

use crate::bytes::{bytes_has_prefix, has_prefix, spec_lp, append_lp};
use crate::hash::{hash_of, HashValue};
use crate::tree::view_pairs;
use vstd::prelude::*;

verus! {

/// The class byte of resource leaves.
pub const RESOURCE_CLASS: u8 = 0;

/// The class byte of table-item leaves.
pub const TABLE_CLASS: u8 = 1;

/// The key prefix shared by all leaves of one class under one account.
pub open spec fn spec_class_prefix(addr: Seq<u8>, class: u8) -> Seq<u8> {
    spec_lp(addr).push(class)
}

/// Builds the key prefix of one class under one account.
pub fn class_prefix(addr: &Vec<u8>, class: u8) -> (r: Vec<u8>)
    ensures
        r@ == spec_class_prefix(addr@, class),
{
    let mut out: Vec<u8> = Vec::new();
    append_lp(&mut out, addr);
    out.push(class);
    proof {
        assert(out@ =~= spec_class_prefix(addr@, class));
    }
    out
}

/// The entries whose keys start with `prefix`, in their stored order.
pub open spec fn spec_filter_prefix(entries: Seq<(Seq<u8>, Seq<u8>)>, prefix: Seq<u8>) -> Seq<
    (Seq<u8>, Seq<u8>),
> {
    entries.filter(|p: (Seq<u8>, Seq<u8>)| has_prefix(p.0, prefix))
}

/// Keeps the entries whose keys start with `prefix`.
pub fn filter_entries(entries: &Vec<(Vec<u8>, Vec<u8>)>, prefix: &Vec<u8>) -> (r: Vec<
    (Vec<u8>, Vec<u8>),
>)
    ensures
        view_pairs(r@) == spec_filter_prefix(view_pairs(entries@), prefix@),
{
    let ghost all = view_pairs(entries@);
    let mut out: Vec<(Vec<u8>, Vec<u8>)> = Vec::new();
    let mut i: usize = 0;
    proof {
        reveal_with_fuel(Seq::filter, 2);
        assert(all.take(0).len() == 0);
        assert(view_pairs(out@) =~= spec_filter_prefix(all.take(0), prefix@));
    }
    while i < entries.len()
        invariant
            i <= entries@.len(),
            all == view_pairs(entries@),
            view_pairs(out@) == spec_filter_prefix(all.take(i as int), prefix@),
        decreases entries@.len() - i,
    {
        let e = &entries[i];
        let ghost pre_out = out@;
        proof {
            reveal_with_fuel(Seq::filter, 2);
            assert(all.take(i + 1 as int).drop_last() =~= all.take(i as int));
            assert(all.take(i + 1 as int).last() == all[i as int]);
            assert(all[i as int] == (entries@[i as int].0@, entries@[i as int].1@));
            if has_prefix(all[i as int].0, prefix@) {
                assert(spec_filter_prefix(all.take(i + 1 as int), prefix@) == spec_filter_prefix(
                    all.take(i as int),
                    prefix@,
                ).push(all[i as int]));
            } else {
                assert(spec_filter_prefix(all.take(i + 1 as int), prefix@) == spec_filter_prefix(
                    all.take(i as int),
                    prefix@,
                ));
            }
        }
        if bytes_has_prefix(&e.0, prefix) {
            out.push((crate::bytes::clone_bytes(&e.0), crate::bytes::clone_bytes(&e.1)));
            proof {
                assert(view_pairs(out@) =~= view_pairs(pre_out).push(
                    (entries@[i as int].0@, entries@[i as int].1@),
                ));
            }
        }
        i += 1;
    }
    proof {
        assert(all.take(entries@.len() as int) =~= all);
    }
    out
}

/// Canonical encoding of an entry list: each key and value length-prefixed,
/// in order.
pub open spec fn spec_entries_enc(s: Seq<(Seq<u8>, Seq<u8>)>) -> Seq<u8>
    decreases s.len(),
{
    if s.len() == 0 {
        Seq::empty()
    } else {
        spec_entries_enc(s.drop_last()) + spec_lp(s.last().0) + spec_lp(s.last().1)
    }
}

/// Encodes an entry list canonically.
pub fn encode_entries(entries: &Vec<(Vec<u8>, Vec<u8>)>) -> (r: Vec<u8>)
    ensures
        r@ == spec_entries_enc(view_pairs(entries@)),
{
    let ghost all = view_pairs(entries@);
    let mut out: Vec<u8> = Vec::new();
    let mut i: usize = 0;
    proof {
        assert(out@ =~= spec_entries_enc(all.take(0)));
    }
    while i < entries.len()
        invariant
            i <= entries@.len(),
            all == view_pairs(entries@),
            out@ == spec_entries_enc(all.take(i as int)),
        decreases entries@.len() - i,
    {
        let e = &entries[i];
        let ghost pre = out@;
        proof {
            assert(all.take(i + 1 as int).drop_last() =~= all.take(i as int));
            assert(all.take(i + 1 as int).last() == all[i as int]);
            assert(all[i as int] == (entries@[i as int].0@, entries@[i as int].1@));
        }
        append_lp(&mut out, &e.0);
        append_lp(&mut out, &e.1);
        proof {
            assert(out@ =~= spec_entries_enc(all.take(i + 1 as int)));
        }
        i += 1;
    }
    proof {
        assert(all.take(entries@.len() as int) =~= all);
    }
    out
}

/// The sub-tree root summarizing one class of an account's entries: absent
/// where the class is empty, else the digest of the canonical encoding.
pub open spec fn spec_class_root(entries: Seq<(Seq<u8>, Seq<u8>)>) -> Option<Seq<u8>> {
    if entries.len() == 0 {
        None
    } else {
        Some(hash_of(spec_entries_enc(entries)))
    }
}

/// The view of an optional digest.
pub open spec fn opt_hash_view(o: Option<HashValue>) -> Option<Seq<u8>> {
    match o {
        None => None,
        Some(h) => Some(h@),
    }
}

/// Decoded form of an account's state: the per-class sub-tree roots. A new
/// value replaces the old on every write; it is never mutated in place.
#[derive(Debug)]
pub struct AccountState {
    pub resource_root: Option<HashValue>,
    pub table_root: Option<HashValue>,
}

/// A full snapshot of one account's entries, keyed by their full leaf keys,
/// split by class.
#[derive(Debug)]
pub struct AccountStateSet {
    pub resources: Vec<(Vec<u8>, Vec<u8>)>,
    pub tables: Vec<(Vec<u8>, Vec<u8>)>,
}

/// What `AccountState` must say of the account `addr` given all entries of
/// one version: absent for an account with no entries, else the two class
/// roots.
pub open spec fn spec_account_state_ok(
    entries: Seq<(Seq<u8>, Seq<u8>)>,
    addr: Seq<u8>,
    r: Option<AccountState>,
) -> bool {
    let res = spec_filter_prefix(entries, spec_class_prefix(addr, RESOURCE_CLASS));
    let tab = spec_filter_prefix(entries, spec_class_prefix(addr, TABLE_CLASS));
    if res.len() == 0 && tab.len() == 0 {
        r.is_none()
    } else {
        match r {
            None => false,
            Some(st) => opt_hash_view(st.resource_root) == spec_class_root(res) && opt_hash_view(
                st.table_root,
            ) == spec_class_root(tab),
        }
    }
}

/// What `AccountStateSet` must say of the account `addr`: absent for an
/// account with no entries, else exactly the account's entries by class.
pub open spec fn spec_account_state_set_ok(
    entries: Seq<(Seq<u8>, Seq<u8>)>,
    addr: Seq<u8>,
    r: Option<AccountStateSet>,
) -> bool {
    let res = spec_filter_prefix(entries, spec_class_prefix(addr, RESOURCE_CLASS));
    let tab = spec_filter_prefix(entries, spec_class_prefix(addr, TABLE_CLASS));
    if res.len() == 0 && tab.len() == 0 {
        r.is_none()
    } else {
        match r {
            None => false,
            Some(s) => view_pairs(s.resources@) == res && view_pairs(s.tables@) == tab,
        }
    }
}

} // verus!
