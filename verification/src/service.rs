//! The query protocol: a closed set of request kinds, a response kind for
//! each, and the dispatcher that answers one request against the store.
//! Every request kind yields exactly one response kind; the dispatcher's
//! contract rules the other pairings out, so a caller that sent a request
//! knows the shape of the answer.

use crate::access_path::{spec_encode_access_path, AccessPath, AccountAddress, TableHandle};
use crate::account_state::{
    spec_account_state_ok, spec_account_state_set_ok, AccountState, AccountStateSet,
};
use crate::db::{
    opt_hash_view, spec_table_item_proof_ok, spec_table_owner, StateDb, StateError,
};
use crate::hash::HashValue;
use crate::state_proof::{
    opt_bytes_view, spec_verify, StateWithProof, StateWithTableItemProof,
};
use crate::tree::spec_lookup;
use vstd::prelude::*;

verus! {

/// One query: every way a caller may ask about the state.
#[derive(Debug)]
pub enum StateRequest {
    Get(AccessPath),
    GetWithProof(AccessPath),
    GetAccountState(AccountAddress),
    GetAccountStateSet { address: AccountAddress, state_root: Option<HashValue> },
    StateRoot,
    GetWithProofByRoot(AccessPath, HashValue),
    GetAccountStateByRoot(AccountAddress, HashValue),
    GetWithTableItemProof(TableHandle, Vec<u8>),
    GetWithTableItemProofByRoot(TableHandle, Vec<u8>, HashValue),
}

/// One answer: the response kinds, one per request kind (requests that
/// differ only in their root selector share their response kind).
#[derive(Debug)]
pub enum StateResponse {
    State(Option<Vec<u8>>),
    StateWithProof(Box<StateWithProof>),
    AccountState(Option<AccountState>),
    AccountStateSet(Option<AccountStateSet>),
    StateRoot(HashValue),
    StateWithTableItemProof(Box<StateWithTableItemProof>),
}

/// The one response kind a request kind may be answered with.
pub open spec fn spec_response_matches(req: StateRequest, resp: StateResponse) -> bool {
    match req {
        StateRequest::Get(_) => resp is State,
        StateRequest::GetWithProof(_) => resp is StateWithProof,
        StateRequest::GetAccountState(_) => resp is AccountState,
        StateRequest::GetAccountStateSet { .. } => resp is AccountStateSet,
        StateRequest::StateRoot => resp is StateRoot,
        StateRequest::GetWithProofByRoot(..) => resp is StateWithProof,
        StateRequest::GetAccountStateByRoot(..) => resp is AccountState,
        StateRequest::GetWithTableItemProof(..) => resp is StateWithTableItemProof,
        StateRequest::GetWithTableItemProofByRoot(..) => resp is StateWithTableItemProof,
    }
}

/// What dispatching a request must answer, kind by kind: the matching
/// response kind carrying exactly what the corresponding read promises, or
/// the failure that read allows.
pub open spec fn spec_dispatch_post(
    db: StateDb,
    req: StateRequest,
    r: Result<StateResponse, StateError>,
) -> bool {
    match req {
        StateRequest::Get(ap) => match r {
            Ok(StateResponse::State(v)) => opt_bytes_view(v) == spec_lookup(
                db.current_view(),
                spec_encode_access_path(ap),
            ),
            _ => false,
        },
        StateRequest::GetWithProof(ap) => match r {
            Ok(StateResponse::StateWithProof(b)) => {
                &&& opt_bytes_view(b.state) == spec_lookup(
                    db.current_view(),
                    spec_encode_access_path(ap),
                )
                &&& spec_verify(
                    spec_encode_access_path(ap),
                    opt_bytes_view(b.state),
                    b.proof.nodes@,
                    db.current_root(),
                )
            },
            _ => false,
        },
        StateRequest::GetAccountState(a) => match r {
            Ok(StateResponse::AccountState(st)) => spec_account_state_ok(
                db.entries_sel(None).unwrap(),
                a@,
                st,
            ),
            _ => false,
        },
        StateRequest::GetAccountStateSet { address, state_root } => match r {
            Ok(StateResponse::AccountStateSet(s)) => db.entries_sel(
                opt_hash_view(state_root),
            ).is_some() && spec_account_state_set_ok(
                db.entries_sel(opt_hash_view(state_root)).unwrap(),
                address@,
                s,
            ),
            Err(e) => e == StateError::UnreachableRoot && db.entries_sel(
                opt_hash_view(state_root),
            ).is_none(),
            _ => false,
        },
        StateRequest::StateRoot => match r {
            Ok(StateResponse::StateRoot(h)) => h@ == db.current_root(),
            _ => false,
        },
        StateRequest::GetWithProofByRoot(ap, root) => match r {
            Ok(StateResponse::StateWithProof(b)) => {
                &&& db.view_at(root@).is_some()
                &&& opt_bytes_view(b.state) == spec_lookup(
                    db.view_at(root@).unwrap(),
                    spec_encode_access_path(ap),
                )
                &&& spec_verify(
                    spec_encode_access_path(ap),
                    opt_bytes_view(b.state),
                    b.proof.nodes@,
                    root@,
                )
            },
            Err(e) => e == StateError::UnreachableRoot && !db.retained(root@),
            _ => false,
        },
        StateRequest::GetAccountStateByRoot(a, root) => match r {
            Ok(StateResponse::AccountState(st)) => db.entries_sel(Some(root@)).is_some()
                && spec_account_state_ok(db.entries_sel(Some(root@)).unwrap(), a@, st),
            Err(e) => e == StateError::UnreachableRoot && !db.retained(root@),
            _ => false,
        },
        StateRequest::GetWithTableItemProof(h, k) => match r {
            Ok(StateResponse::StateWithTableItemProof(b)) => spec_table_item_proof_ok(
                db.current_view(),
                db.current_root(),
                h@,
                k@,
                *b,
            ),
            Err(e) => e == StateError::DecodeFailure && (match spec_table_owner(
                db.current_view(),
                h@,
            ) {
                Some(o) => o.len() != 16,
                None => false,
            }),
            _ => false,
        },
        StateRequest::GetWithTableItemProofByRoot(h, k, root) => match r {
            Ok(StateResponse::StateWithTableItemProof(b)) => db.view_at(root@).is_some()
                && spec_table_item_proof_ok(db.view_at(root@).unwrap(), root@, h@, k@, *b),
            Err(e) => match e {
                StateError::UnreachableRoot => !db.retained(root@),
                StateError::DecodeFailure => db.view_at(root@).is_some() && (
                match spec_table_owner(db.view_at(root@).unwrap(), h@) {
                    Some(o) => o.len() != 16,
                    None => false,
                }),
            },
            _ => false,
        },
    }
}

/// Answers one request. Each request kind is handled by its own typed read,
/// so a response of the wrong kind cannot be produced: on success the
/// response kind is the request's one kind, and it carries exactly what
/// that read promises.
pub fn dispatch(db: &StateDb, req: StateRequest) -> (r: Result<StateResponse, StateError>)
    requires
        db.wf(),
    ensures
        spec_dispatch_post(*db, req, r),
        (match r {
            Ok(resp) => spec_response_matches(req, resp),
            Err(_) => true,
        }),
{
    match req {
        StateRequest::Get(ap) => Ok(StateResponse::State(db.get(&ap))),
        StateRequest::GetWithProof(ap) => Ok(
            StateResponse::StateWithProof(Box::new(db.get_with_proof(&ap))),
        ),
        StateRequest::GetAccountState(a) => Ok(
            StateResponse::AccountState(db.get_account_state(&a)),
        ),
        StateRequest::GetAccountStateSet { address, state_root } => match db.get_account_state_set(
            &address,
            state_root,
        ) {
            Ok(s) => Ok(StateResponse::AccountStateSet(s)),
            Err(e) => Err(e),
        },
        StateRequest::StateRoot => Ok(StateResponse::StateRoot(db.state_root())),
        StateRequest::GetWithProofByRoot(ap, root) => match db.get_with_proof_by_root(
            &ap,
            &root,
        ) {
            Ok(swp) => Ok(StateResponse::StateWithProof(Box::new(swp))),
            Err(e) => Err(e),
        },
        StateRequest::GetAccountStateByRoot(a, root) => match db.get_account_state_by_root(
            &a,
            &root,
        ) {
            Ok(st) => Ok(StateResponse::AccountState(st)),
            Err(e) => Err(e),
        },
        StateRequest::GetWithTableItemProof(h, k) => match db.get_with_table_item_proof(&h, &k) {
            Ok(p) => Ok(StateResponse::StateWithTableItemProof(Box::new(p))),
            Err(e) => Err(e),
        },
        StateRequest::GetWithTableItemProofByRoot(h, k, root) => match db
            .get_with_table_item_proof_by_root(&h, &k, &root) {
            Ok(p) => Ok(StateResponse::StateWithTableItemProof(Box::new(p))),
            Err(e) => Err(e),
        },
    }
}

} // verus!
