//! Request intake and lookup: validating a new bridge request, refusing
//! duplicates of an in-flight one, and registering it once the origin-chain
//! lock transaction has been submitted.
//!
//! Submitting the lock transaction itself is chain I/O and happens outside;
//! [`prepare_request`] decides everything before it and [`register_request`]
//! records everything after it.

use vstd::prelude::*;
use vstd::string::StrSliceExecFns;

use crate::chain::{evm_address_ok, parse_evm_address, parse_solana_pubkey, solana_pubkey_ok};
use crate::db::{
    lemma_reserved_keys_distinct, spec_completed_key, spec_pending_index_key, spec_pending_key,
    Database,
};
use crate::errors::RequestError;
use crate::pending::{add_pending_request, pending_sync, spec_pending_of};
use crate::registry::{
    completed_list_at, index_at, lists_wf, pending_list_at, pending_requests, request_at,
};
use crate::text::vec_contains_str;
use crate::types::{
    keccak_hex_of, BRequest, BRequestView, Chains, InputRequest, InputRequestView, Status,
};

verus! {

/// An id is in flight when a record for it is stored with a status that is
/// neither canceled nor completed: such an id cannot be submitted again.
pub open spec fn spec_active_request(m: Map<Seq<char>, Seq<u8>>, id: Seq<char>) -> bool {
    match request_at(m, id) {
        Some(req) => req.status != Status::Canceled && req.status != Status::Completed,
        None => false,
    }
}

/// The destination account must belong to the opposite chain: an EVM-origin
/// request lands on Solana and a Solana-origin one on EVM.
pub open spec fn destination_ok(i: InputRequestView) -> bool {
    match i.origin_network {
        Chains::EVM => solana_pubkey_ok(i.destination_account),
        Chains::SOLANA => evm_address_ok(i.destination_account),
    }
}

/// What a just-created record looks like: derived id, bottom status, the
/// given input, no transactions, empty output.
pub open spec fn fresh_request(req: BRequestView, input: InputRequestView) -> bool {
    &&& req.id == keccak_hex_of(input.contract_or_mint, input.token_id, input.token_owner)
    &&& req.status == Status::RequestReceived
    &&& req.input == input
    &&& req.tx_hashes.len() == 0
    &&& req.output.detination_token_id_or_account.len() == 0
    &&& req.output.detination_contract_id_or_mint.len() == 0
}

/// Look a request up by id; an id without a record is an error.
pub fn get_request(request_id: &str, db: &Database) -> (r: Result<Option<BRequest>, RequestError>)
    ensures
        match r {
            Ok(Some(req)) => request_at(db@, request_id@) == Some(req@),
            Ok(None) => false,
            Err(e) => request_at(db@, request_id@) is None && (e matches
            RequestError::NoExistingRequest(s) && s@ == request_id@),
        },
{
    match crate::registry::request_data(request_id, db) {
        Ok(Some(request)) => Ok(Some(request)),
        _ => Err(RequestError::NoExistingRequest(request_id.to_owned())),
    }
}

/// Whether the id already names an in-flight request (neither canceled nor
/// completed) — exactly the submissions intake must refuse.
pub fn already_existing_request(request_id: &str, db: &Database) -> (r: bool)
    ensures
        r == spec_active_request(db@, request_id@),
{
    if let Ok(Some(request)) = get_request(request_id, db) {
        if request.status != Status::Canceled && request.status != Status::Completed {
            return true;
        }
    }
    return false;
}

/// The pending id list as stored.
pub fn get_pending_requests(db: &Database) -> (r: Option<Vec<String>>)
    requires
        lists_wf(db@),
    ensures
        match r {
            Some(v) => pending_list_at(db@) == Some(v.deep_view()),
            None => !db@.contains_key(spec_pending_key()),
        },
{
    crate::registry::pending_requests(db)
}

/// The completed id list as stored.
pub fn get_completed_requests(db: &Database) -> (r: Option<Vec<String>>)
    requires
        lists_wf(db@),
    ensures
        match r {
            Some(v) => completed_list_at(db@) == Some(v.deep_view()),
            None => !db@.contains_key(spec_completed_key()),
        },
{
    crate::registry::completed_requests(db)
}

/// Validate a new bridge request: build its record, refuse an id that is
/// already in flight — a canceled or completed record may be bridged again —
/// and refuse a destination account that does not parse for the destination
/// chain.  The returned record is ready for the origin-chain lock.
pub fn prepare_request(input: InputRequest, db: &Database) -> (r: Result<BRequest, RequestError>)
    ensures
        ({
            let id = keccak_hex_of(input.contract_or_mint@, input.token_id@, input.token_owner@);
            match r {
                Ok(req) => !spec_active_request(db@, id) && destination_ok(input@)
                    && fresh_request(req@, input@) && req.id@.len() == 66,
                Err(RequestError::AlreadyExistingRequest(s)) => spec_active_request(db@, id) && s@
                    == id,
                Err(RequestError::InvalidDestinationAccount) => !spec_active_request(db@, id)
                    && !destination_ok(input@),
                Err(_) => false,
            }
        }),
{
    let request = BRequest::new(input);
    if already_existing_request(request.id.as_str(), db) {
        return Err(RequestError::AlreadyExistingRequest(request.id));
    }
    let valid = match request.input.origin_network {
        Chains::EVM => parse_solana_pubkey(request.input.destination_account.as_str()),
        Chains::SOLANA => parse_evm_address(request.input.destination_account.as_str()),
    };
    if !valid {
        return Err(RequestError::InvalidDestinationAccount);
    }
    Ok(request)
}

/// A request id never collides with a reserved store key: ids are 66
/// characters long, the reserved keys are shorter.
pub proof fn lemma_request_id_unreserved(id: Seq<char>)
    requires
        id.len() == 66,
    ensures
        id != spec_pending_key(),
        id != spec_pending_index_key(),
        id != spec_completed_key(),
{
    reveal_strlit("pending_requests");
    reveal_strlit("pending_requests_index");
    reveal_strlit("completed_requests");
    assert(spec_pending_key().len() == 16);
    assert(spec_pending_index_key().len() == 22);
    assert(spec_completed_key().len() == 18);
}

/// Record a submitted lock transaction: append its hash to the new record —
/// which persists it — and track the id as pending.  An id that is still on
/// the pending list (a re-bridge of a canceled or completed request that
/// recovery has not swept yet) keeps its slot.
pub fn register_request(request: &mut BRequest, tx_hash: &str, db: &mut Database) -> (r: Result<
    (),
    RequestError,
>)
    requires
        pending_sync(old(db)@),
        old(request).id@ != spec_pending_key(),
        old(request).id@ != spec_pending_index_key(),
        old(request).id@ != spec_completed_key(),
    ensures
        r is Ok,
        final(request).id == old(request).id,
        final(request).status == old(request).status,
        final(request).input == old(request).input,
        final(request).tx_hashes.deep_view() == old(request).tx_hashes.deep_view().push(tx_hash@),
        final(request).output == old(request).output,
        pending_sync(final(db)@),
        request_at(final(db)@, old(request).id@) == Some(final(request)@),
        pending_list_at(final(db)@) == Some(
            if spec_pending_of(old(db)@).contains(old(request).id@) {
                spec_pending_of(old(db)@)
            } else {
                spec_pending_of(old(db)@).push(old(request).id@)
            },
        ),
        completed_list_at(final(db)@) == completed_list_at(old(db)@),
{
    let ghost id = request.id@;
    let _ = request.add_tx(tx_hash, db);
    proof {
        lemma_reserved_keys_distinct();
        assert(pending_list_at(db@) == pending_list_at(old(db)@));
        assert(index_at(db@) == index_at(old(db)@));
        assert(completed_list_at(db@) == completed_list_at(old(db)@));
        assert(lists_wf(db@));
        crate::codec::lemma_request_round_trip(request@);
    }
    let already = match pending_requests(db) {
        Some(v) => vec_contains_str(&v, request.id.as_str()),
        None => false,
    };
    if !already {
        let _ = add_pending_request(request.id.as_str(), db);
        proof {
            assert(final(db)@[id] == old(db)@.insert(
                id,
                crate::codec::spec_enc_brequest(request@),
            )[id]);
        }
    }
    Ok(())
}

} // verus!
