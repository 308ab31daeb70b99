//! The addressing scheme: an `AccessPath` names one leaf of the state tree,
//! either a resource under an account or an entry of a table owned by an
//! account, and encodes canonically to the byte key the tree is ordered by.

use crate::bytes::{append_bytes, append_lp, clone_bytes, spec_lp};
use vstd::prelude::*;

verus! {

/// A ledger account: a 16-byte identifier.
#[derive(Debug)]
pub struct AccountAddress {
    pub bytes: Vec<u8>,
}

impl View for AccountAddress {
    type V = Seq<u8>;

    open spec fn view(&self) -> Seq<u8> {
        self.bytes@
    }
}

impl AccountAddress {
    pub open spec fn wf(&self) -> bool {
        self@.len() == 16
    }

    pub fn new(bytes: Vec<u8>) -> (r: Self)
        requires
            bytes@.len() == 16,
        ensures
            r@ == bytes@,
            r.wf(),
    {
        AccountAddress { bytes }
    }

    /// Returns a fresh address with the same bytes.
    pub fn duplicate(&self) -> (r: Self)
        ensures
            r@ == self@,
    {
        AccountAddress { bytes: clone_bytes(&self.bytes) }
    }
}

/// An opaque 16-byte identifier naming a table instance; it locates a table
/// item only after the registry has resolved it to its owning account.
#[derive(Debug)]
pub struct TableHandle {
    pub bytes: Vec<u8>,
}

impl View for TableHandle {
    type V = Seq<u8>;

    open spec fn view(&self) -> Seq<u8> {
        self.bytes@
    }
}

impl TableHandle {
    pub open spec fn wf(&self) -> bool {
        self@.len() == 16
    }

    pub fn new(bytes: Vec<u8>) -> (r: Self)
        requires
            bytes@.len() == 16,
        ensures
            r@ == bytes@,
            r.wf(),
    {
        TableHandle { bytes }
    }

    /// Returns a fresh handle with the same bytes.
    pub fn duplicate(&self) -> (r: Self)
        ensures
            r@ == self@,
    {
        TableHandle { bytes: clone_bytes(&self.bytes) }
    }
}

/// The resource-or-table discriminator within an `AccessPath`.
#[derive(Debug)]
pub enum DataPath {
    /// A resource leaf, named by the self-describing tag of its type.
    Resource { tag: Vec<u8> },
    /// A table item leaf, named by the table's handle and the item key.
    Table { handle: TableHandle, key: Vec<u8> },
}

/// Address of one leaf in the account state tree.
#[derive(Debug)]
pub struct AccessPath {
    pub address: AccountAddress,
    pub path: DataPath,
}

/// Canonical encoding of a `DataPath`: a variant byte, then the
/// length-prefixed fields.
pub open spec fn spec_encode_data_path(p: DataPath) -> Seq<u8> {
    match p {
        DataPath::Resource { tag } => seq![0u8] + spec_lp(tag@),
        DataPath::Table { handle, key } => seq![1u8] + spec_lp(handle@) + spec_lp(key@),
    }
}

/// Canonical encoding of an `AccessPath`: the leaf key the state tree is
/// ordered by.
pub open spec fn spec_encode_access_path(ap: AccessPath) -> Seq<u8> {
    spec_lp(ap.address@) + spec_encode_data_path(ap.path)
}

/// Encodes a `DataPath` canonically.
pub fn encode_data_path(p: &DataPath) -> (r: Vec<u8>)
    ensures
        r@ == spec_encode_data_path(*p),
{
    let mut out: Vec<u8> = Vec::new();
    match p {
        DataPath::Resource { tag } => {
            out.push(0u8);
            proof {
                assert(out@ =~= seq![0u8]);
            }
            append_lp(&mut out, tag);
        },
        DataPath::Table { handle, key } => {
            out.push(1u8);
            proof {
                assert(out@ =~= seq![1u8]);
            }
            append_lp(&mut out, &handle.bytes);
            append_lp(&mut out, key);
            proof {
                assert(seq![1u8] + spec_lp(handle@) + spec_lp(key@) =~= out@);
            }
        },
    }
    out
}

/// Encodes an `AccessPath` to the byte key of its leaf.
pub fn encode_access_path(ap: &AccessPath) -> (r: Vec<u8>)
    ensures
        r@ == spec_encode_access_path(*ap),
{
    let mut out: Vec<u8> = Vec::new();
    append_lp(&mut out, &ap.address.bytes);
    let p = encode_data_path(&ap.path);
    append_bytes(&mut out, &p);
    proof {
        assert(out@ =~= spec_encode_access_path(*ap));
    }
    out
}

/// The system-reserved account that owns the table-handle registry.
pub open spec fn spec_table_handle_address() -> Seq<u8> {
    seq![0u8, 0u8, 0u8, 0u8, 0u8, 0u8, 0u8, 0u8, 0u8, 0u8, 0u8, 0u8, 0x31u8, 0x41u8, 0x59u8, 0x26u8]
}

/// Builds the reserved registry-owner address.
pub fn table_handle_address() -> (r: AccountAddress)
    ensures
        r@ == spec_table_handle_address(),
        r.wf(),
{
    let mut bytes: Vec<u8> = Vec::new();
    let mut i: usize = 0;
    while i < 12
        invariant
            i <= 12,
            bytes@.len() == i,
            forall|j: int| 0 <= j < i ==> bytes@[j] == 0u8,
        decreases 12 - i,
    {
        bytes.push(0u8);
        i += 1;
    }
    bytes.push(0x31u8);
    bytes.push(0x41u8);
    bytes.push(0x59u8);
    bytes.push(0x26u8);
    proof {
        assert(bytes@ =~= spec_table_handle_address());
    }
    AccountAddress { bytes }
}

/// The leaf key under which the registry records that `handle` belongs to
/// some owning account: a table entry of the reserved address, keyed by the
/// handle itself. This well-known location is fixed configuration, computed
/// from the reserved address, never mutated.
pub open spec fn spec_registry_key(handle: Seq<u8>) -> Seq<u8> {
    spec_lp(spec_table_handle_address()) + (seq![1u8] + spec_lp(spec_table_handle_address())
        + spec_lp(handle))
}

/// Builds the registry `AccessPath` for `handle`.
pub fn registry_access_path(handle: &TableHandle) -> (r: AccessPath)
    ensures
        spec_encode_access_path(r) == spec_registry_key(handle@),
{
    let owner = table_handle_address();
    let registry = table_handle_address();
    let r = AccessPath {
        address: owner,
        path: DataPath::Table {
            handle: TableHandle { bytes: registry.bytes },
            key: clone_bytes(&handle.bytes),
        },
    };
    proof {
        assert(spec_encode_access_path(r) =~= spec_registry_key(handle@));
    }
    r
}

/// Builds the `AccessPath` of the resource with tag `tag` under `address`.
pub fn resource_access_path(address: AccountAddress, tag: Vec<u8>) -> (r: AccessPath)
    ensures
        r.address@ == address@,
        r.path == (DataPath::Resource { tag }),
{
    AccessPath { address, path: DataPath::Resource { tag } }
}

/// Builds the `AccessPath` of the item of table `handle` at `key`, once the
/// registry has resolved the handle to `owner`.
pub fn table_item_access_path(owner: AccountAddress, handle: TableHandle, key: Vec<u8>) -> (r:
    AccessPath)
    ensures
        r.address@ == owner@,
        r.path == (DataPath::Table { handle, key }),
{
    AccessPath { address: owner, path: DataPath::Table { handle, key } }
}

} // verus!
