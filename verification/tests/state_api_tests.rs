use state_api::access_path::{
    encode_access_path, registry_access_path, table_handle_address, table_item_access_path,
    AccessPath, AccountAddress, DataPath, TableHandle,
};
use state_api::db::{StateDb, StateError};
use state_api::resource::{BalanceResource, MoveResource};
use state_api::service::{dispatch, StateRequest, StateResponse};

fn addr(last: u8) -> AccountAddress {
    let mut b = vec![0u8; 15];
    b.push(last);
    AccountAddress::new(b)
}

fn handle(last: u8) -> TableHandle {
    let mut b = vec![0u8; 15];
    b.push(last);
    TableHandle::new(b)
}

fn balance_path(a: &AccountAddress) -> AccessPath {
    AccessPath {
        address: a.duplicate(),
        path: DataPath::Resource { tag: b"Balance".to_vec() },
    }
}

#[test]
fn written_value_returned_with_verifying_proof() {
    let mut db = StateDb::new();
    let path = balance_path(&addr(1));
    db.put(&path, &vec![1u8, 2, 3]);
    let r0 = db.state_root();
    let swp = db.get_with_proof_by_root(&path, &r0).unwrap();
    assert_eq!(swp.state, Some(vec![1u8, 2, 3]));
    let key = encode_access_path(&path);
    assert!(swp.proof.verify(&key, &Some(vec![1u8, 2, 3]), &r0));
}

#[test]
fn absent_path_yields_verifying_non_membership_proof() {
    let mut db = StateDb::new();
    db.put(&balance_path(&addr(1)), &vec![9u8]);
    let missing = balance_path(&addr(2));
    let swp = db.get_with_proof(&missing);
    assert_eq!(swp.state, None);
    let key = encode_access_path(&missing);
    let root = db.state_root();
    assert!(swp.proof.verify(&key, &None, &root));
}

#[test]
fn proof_rejects_wrong_value_and_wrong_root() {
    let mut db = StateDb::new();
    let path = balance_path(&addr(1));
    db.put(&path, &vec![1u8, 2, 3]);
    let root = db.state_root();
    let swp = db.get_with_proof(&path);
    let key = encode_access_path(&path);
    assert!(!swp.proof.verify(&key, &Some(vec![4u8, 5]), &root));
    assert!(!swp.proof.verify(&key, &None, &root));
    db.put(&balance_path(&addr(3)), &vec![7u8]);
    let other_root = db.state_root();
    assert!(!swp.proof.verify(&key, &Some(vec![1u8, 2, 3]), &other_root));
}

#[test]
fn state_root_is_idempotent_read() {
    let mut db = StateDb::new();
    db.put(&balance_path(&addr(1)), &vec![1u8]);
    let r1 = db.state_root();
    let r2 = db.state_root();
    assert_eq!(r1.bytes, r2.bytes);
}

#[test]
fn historical_roots_stay_readable() {
    let mut db = StateDb::new();
    let path = balance_path(&addr(1));
    db.put(&path, &vec![1u8]);
    let r1 = db.state_root();
    db.put(&path, &vec![2u8]);
    let r2 = db.state_root();
    let old = db.get_with_proof_by_root(&path, &r1).unwrap();
    assert_eq!(old.state, Some(vec![1u8]));
    let new = db.get_with_proof_by_root(&path, &r2).unwrap();
    assert_eq!(new.state, Some(vec![2u8]));
    assert_eq!(db.get(&path), Some(vec![2u8]));
}

#[test]
fn unreachable_root_is_a_distinct_error() {
    let mut db = StateDb::new();
    let path = balance_path(&addr(1));
    db.put(&path, &vec![1u8]);
    let bogus = state_api::hash::HashValue::from_bytes(vec![0xabu8; 32]);
    let e = db.get_with_proof_by_root(&path, &bogus).unwrap_err();
    assert!(matches!(e, StateError::UnreachableRoot));
    let e2 = db.get_account_state_by_root(&addr(1), &bogus).unwrap_err();
    assert!(matches!(e2, StateError::UnreachableRoot));
}

#[test]
fn account_state_set_default_root_equals_current_root() {
    let mut db = StateDb::new();
    let a = addr(1);
    db.put(&balance_path(&a), &vec![1u8, 2]);
    db.put(
        &AccessPath {
            address: a.duplicate(),
            path: DataPath::Table { handle: handle(9), key: vec![5u8] },
        },
        &vec![6u8],
    );
    let current = db.state_root();
    let by_default = db.get_account_state_set(&a, None).unwrap().unwrap();
    let by_current = db.get_account_state_set(&a, Some(current)).unwrap().unwrap();
    assert_eq!(by_default.resources, by_current.resources);
    assert_eq!(by_default.tables, by_current.tables);
    assert_eq!(by_default.resources.len(), 1);
    assert_eq!(by_default.tables.len(), 1);
}

#[test]
fn account_state_reports_class_roots() {
    let mut db = StateDb::new();
    let a = addr(1);
    assert!(db.get_account_state(&a).is_none());
    db.put(&balance_path(&a), &vec![1u8]);
    let st = db.get_account_state(&a).unwrap();
    assert!(st.resource_root.is_some());
    assert!(st.table_root.is_none());
}

#[test]
fn table_item_round_trip_with_both_proofs() {
    let mut db = StateDb::new();
    let owner = addr(0xaa);
    let h = handle(7);
    db.put(&registry_access_path(&h), &owner.bytes.clone());
    let item_path = table_item_access_path(owner.duplicate(), h.duplicate(), vec![1u8, 1]);
    db.put(&item_path, &vec![42u8]);
    let root = db.state_root();
    let p = db.get_with_table_item_proof(&h, &vec![1u8, 1]).unwrap();
    assert_eq!(p.registry.state, Some(owner.bytes.clone()));
    let reg_key = encode_access_path(&registry_access_path(&h));
    assert!(p.registry.proof.verify(&reg_key, &Some(owner.bytes.clone()), &root));
    let item = p.item.unwrap();
    assert_eq!(item.state, Some(vec![42u8]));
    let item_key = encode_access_path(&item_path);
    assert!(item.proof.verify(&item_key, &Some(vec![42u8]), &root));
}

#[test]
fn unregistered_handle_is_absent_with_non_membership_proof() {
    let mut db = StateDb::new();
    db.put(&balance_path(&addr(1)), &vec![1u8]);
    let h = handle(9);
    let p = db.get_with_table_item_proof(&h, &vec![0u8]).unwrap();
    assert_eq!(p.registry.state, None);
    assert!(p.item.is_none());
    let reg_key = encode_access_path(&registry_access_path(&h));
    let root = db.state_root();
    assert!(p.registry.proof.verify(&reg_key, &None, &root));
}

#[test]
fn registry_owner_of_wrong_shape_is_a_decode_failure() {
    let mut db = StateDb::new();
    let h = handle(7);
    db.put(&registry_access_path(&h), &vec![1u8, 2, 3]);
    let e = db.get_with_table_item_proof(&h, &vec![0u8]).unwrap_err();
    assert!(matches!(e, StateError::DecodeFailure));
}

#[test]
fn get_resource_absent_wrong_shape_and_present() {
    let mut db = StateDb::new();
    let a = addr(1);
    let none: Option<BalanceResource> = db.get_resource(&a).unwrap();
    assert!(none.is_none());
    db.put(&balance_path(&a), &vec![1u8, 2, 3]);
    let e = db.get_resource::<BalanceResource>(&a).unwrap_err();
    assert!(matches!(e, StateError::DecodeFailure));
    let b = BalanceResource { amount: 77 };
    db.put(&balance_path(&a), &b.encode());
    let got = db.get_resource::<BalanceResource>(&a).unwrap().unwrap();
    assert_eq!(got.amount, 77);
}

#[test]
fn balance_resource_round_trips_through_its_encoding() {
    let b = BalanceResource { amount: 0xdead_beef_0102_0304 };
    let bytes = b.encode();
    assert_eq!(bytes.len(), 8);
    let back = BalanceResource::decode(&bytes).unwrap();
    assert_eq!(back.amount, b.amount);
    assert!(BalanceResource::decode(&vec![0u8; 7]).is_none());
}

#[test]
fn table_handle_address_is_fixed_configuration() {
    let a1 = table_handle_address();
    let a2 = table_handle_address();
    assert_eq!(a1.bytes, a2.bytes);
    assert_eq!(a1.bytes.len(), 16);
}

#[test]
fn every_request_kind_yields_its_response_kind() {
    let mut db = StateDb::new();
    let a = addr(1);
    let path = balance_path(&a);
    db.put(&path, &vec![1u8, 2, 3]);
    let root = db.state_root();
    let h = handle(7);

    let r = dispatch(&db, StateRequest::Get(balance_path(&a))).unwrap();
    assert!(matches!(r, StateResponse::State(_)));
    let r = dispatch(&db, StateRequest::GetWithProof(balance_path(&a))).unwrap();
    assert!(matches!(r, StateResponse::StateWithProof(_)));
    let r = dispatch(&db, StateRequest::GetAccountState(a.duplicate())).unwrap();
    assert!(matches!(r, StateResponse::AccountState(_)));
    let r = dispatch(
        &db,
        StateRequest::GetAccountStateSet { address: a.duplicate(), state_root: None },
    )
    .unwrap();
    assert!(matches!(r, StateResponse::AccountStateSet(_)));
    let r = dispatch(&db, StateRequest::StateRoot).unwrap();
    assert!(matches!(r, StateResponse::StateRoot(_)));
    let r = dispatch(
        &db,
        StateRequest::GetWithProofByRoot(balance_path(&a), root.duplicate()),
    )
    .unwrap();
    assert!(matches!(r, StateResponse::StateWithProof(_)));
    let r = dispatch(
        &db,
        StateRequest::GetAccountStateByRoot(a.duplicate(), root.duplicate()),
    )
    .unwrap();
    assert!(matches!(r, StateResponse::AccountState(_)));
    let r = dispatch(
        &db,
        StateRequest::GetWithTableItemProof(h.duplicate(), vec![0u8]),
    )
    .unwrap();
    assert!(matches!(r, StateResponse::StateWithTableItemProof(_)));
    let r = dispatch(
        &db,
        StateRequest::GetWithTableItemProofByRoot(h.duplicate(), vec![0u8], root.duplicate()),
    )
    .unwrap();
    assert!(matches!(r, StateResponse::StateWithTableItemProof(_)));
}

#[test]
fn dispatch_reports_unreachable_root() {
    let db = StateDb::new();
    let bogus = state_api::hash::HashValue::from_bytes(vec![0x11u8; 32]);
    let e = dispatch(
        &db,
        StateRequest::GetWithProofByRoot(balance_path(&addr(1)), bogus),
    )
    .unwrap_err();
    assert!(matches!(e, StateError::UnreachableRoot));
}

#[test]
fn dispatched_proof_verifies_against_requested_root() {
    let mut db = StateDb::new();
    let path = balance_path(&addr(1));
    db.put(&path, &vec![1u8, 2, 3]);
    let root = db.state_root();
    let r = dispatch(
        &db,
        StateRequest::GetWithProofByRoot(balance_path(&addr(1)), root.duplicate()),
    )
    .unwrap();
    match r {
        StateResponse::StateWithProof(b) => {
            assert_eq!(b.state, Some(vec![1u8, 2, 3]));
            let key = encode_access_path(&path);
            assert!(b.proof.verify(&key, &Some(vec![1u8, 2, 3]), &root));
        }
        _ => panic!("wrong response kind"),
    }
}

#[test]
fn digest_matches_the_published_sha3_256_vector() {
    let d = state_api::hash::sha3_256(&b"abc".to_vec());
    let expected: Vec<u8> = vec![
        0x3a, 0x98, 0x5d, 0xa7, 0x4f, 0xe2, 0x25, 0xb2, 0x04, 0x5c, 0x17, 0x2d, 0x6b, 0xd3, 0x90,
        0xbd, 0x85, 0x5f, 0x08, 0x6e, 0x3e, 0x9d, 0x52, 0x5b, 0x46, 0xbf, 0xe2, 0x45, 0x11, 0x43,
        0x15, 0x32,
    ];
    assert_eq!(d.bytes, expected);
    let mut db = StateDb::new();
    db.put(&balance_path(&addr(1)), &vec![1u8]);
    assert_eq!(db.state_root().bytes.len(), 32);
}
