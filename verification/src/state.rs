//! The request state machine: the four durable mutations of a request
//! record.  Every mutation rewrites the whole record under its id, so the
//! store always holds a complete snapshot.

use vstd::prelude::*;

use crate::codec::{encode_request, spec_enc_brequest, spec_enc_str_list};
use crate::db::{spec_completed_key, Database};
use crate::errors::DbError;
use crate::registry::{add_completed_request, completed_list_at, spec_add_completed};
use crate::types::{
    step_status, timestamp_le, BRequest, BRequestView, OutputResultView, Status, Timestamp,
};

verus! {

impl BRequest {
    /// Advance one step along the status ladder — a no-op on a terminal
    /// status, so repeating it changes nothing but the timestamp — and
    /// persist the whole record.  The update stamp never decreases.
    pub fn update_state(&mut self, db: &mut Database) -> (r: Result<(), DbError>)
        ensures
            r is Ok,
            final(self).id == old(self).id,
            final(self).status == step_status(old(self).status),
            final(self).input == old(self).input,
            final(self).tx_hashes == old(self).tx_hashes,
            final(self).output == old(self).output,
            timestamp_le(old(self).last_update, final(self).last_update),
            final(db)@ == old(db)@.insert(old(self).id@, spec_enc_brequest(final(self)@)),
            crate::codec::brequest_fits(final(self)@),
    {
        match self.status {
            Status::RequestReceived => self.status = Status::TokenReceived,
            Status::TokenReceived => self.status = Status::TokenMinted,
            Status::TokenMinted => self.status = Status::Completed,
            Status::Completed => {},
            Status::Canceled => {},
        }
        self.last_update = self.last_update.later(BRequest::current_time());
        let bytes = encode_request(self);
        let _ = db.write_value(self.id.as_str(), bytes);
        Ok(())
    }

    /// Abandon the request: an absorbing state, reachable from any state that
    /// has not completed.  Persists the whole record.
    pub fn cancel(&mut self, db: &mut Database) -> (r: Result<(), DbError>)
        requires
            old(self).status != Status::Completed,
        ensures
            r is Ok,
            final(self).id == old(self).id,
            final(self).status == Status::Canceled,
            final(self).input == old(self).input,
            final(self).tx_hashes == old(self).tx_hashes,
            final(self).output == old(self).output,
            final(self).last_update == old(self).last_update,
            final(db)@ == old(db)@.insert(old(self).id@, spec_enc_brequest(final(self)@)),
            crate::codec::brequest_fits(final(self)@),
    {
        self.status = Status::Canceled;
        let bytes = encode_request(self);
        let _ = db.write_value(self.id.as_str(), bytes);
        Ok(())
    }

    /// Complete the request: write both output fields — never empty, so a
    /// completed record is fully populated — set the status to its top,
    /// persist, and record the id on the completed list exactly once.  A
    /// canceled request is absorbed and never completes; the update stamp
    /// never decreases.
    pub fn finalize(&mut self, db: &mut Database, token_contract: &str, token_id: &str) -> (r:
        Result<(), DbError>)
        requires
            old(self).status != Status::Canceled,
            token_contract@.len() > 0,
            token_id@.len() > 0,
        ensures
            timestamp_le(old(self).last_update, final(self).last_update),
            r is Ok,
            final(self).id == old(self).id,
            final(self).status == Status::Completed,
            final(self).input == old(self).input,
            final(self).tx_hashes == old(self).tx_hashes,
            final(self).output.detination_contract_id_or_mint@ == token_contract@,
            final(self).output.detination_token_id_or_account@ == token_id@,
            final(self)@ == finalized_view(
                old(self)@,
                token_contract@,
                token_id@,
                final(self).last_update,
            ),
            crate::codec::brequest_fits(final(self)@),
            final(db)@ == old(db)@.insert(
                old(self).id@,
                spec_enc_brequest(final(self)@),
            ).insert(
                spec_completed_key(),
                spec_enc_str_list(
                    spec_add_completed(
                        completed_list_at(
                            old(db)@.insert(old(self).id@, spec_enc_brequest(final(self)@)),
                        ),
                        old(self).id@,
                    ),
                ),
            ),
    {
        self.output.detination_contract_id_or_mint = token_contract.to_owned();
        self.output.detination_token_id_or_account = token_id.to_owned();
        self.status = Status::Completed;
        self.last_update = self.last_update.later(BRequest::current_time());
        let bytes = encode_request(self);
        let _ = db.write_value(self.id.as_str(), bytes);
        let _ = add_completed_request(self.id.as_str(), db);
        Ok(())
    }

    /// Append one transaction hash to the record's history — the history
    /// never shrinks — and persist the whole record.
    pub fn add_tx(&mut self, tx: &str, db: &mut Database) -> (r: Result<(), DbError>)
        ensures
            r is Ok,
            final(self).id == old(self).id,
            final(self).status == old(self).status,
            final(self).input == old(self).input,
            final(self).tx_hashes.deep_view() == old(self).tx_hashes.deep_view().push(tx@),
            final(self).output == old(self).output,
            final(self).last_update == old(self).last_update,
            final(db)@ == old(db)@.insert(old(self).id@, spec_enc_brequest(final(self)@)),
            crate::codec::brequest_fits(final(self)@),
    {
        let ghost prior = self.tx_hashes.deep_view();
        self.tx_hashes.push(tx.to_owned());
        proof {
            assert(self.tx_hashes.deep_view() =~= prior.push(tx@));
        }
        let bytes = encode_request(self);
        let _ = db.write_value(self.id.as_str(), bytes);
        Ok(())
    }
}

/// What finalizing writes into a record, the timestamp aside.
pub open spec fn finalized_view(
    r: BRequestView,
    contract: Seq<char>,
    token: Seq<char>,
    ts: Timestamp,
) -> BRequestView {
    BRequestView {
        status: Status::Completed,
        output: OutputResultView {
            detination_token_id_or_account: token,
            detination_contract_id_or_mint: contract,
        },
        last_update: ts,
        ..r
    }
}

/// Finalizing twice persists the same record, timestamps aside, and appends
/// the id to the completed list exactly once: the second application adds
/// nothing.
pub proof fn lemma_finalize_idempotent(
    r: BRequestView,
    contract: Seq<char>,
    token: Seq<char>,
    ts1: Timestamp,
    ts2: Timestamp,
    l: Option<Seq<Seq<char>>>,
)
    ensures
        finalized_view(finalized_view(r, contract, token, ts1), contract, token, ts2)
            == finalized_view(r, contract, token, ts2),
        spec_add_completed(Some(spec_add_completed(l, r.id)), r.id) == spec_add_completed(l, r.id),
{
    let once = spec_add_completed(l, r.id);
    assert(once.contains(r.id)) by {
        match l {
            Some(inner) => {
                if inner.contains(r.id) {
                } else {
                    assert(once[once.len() - 1] == r.id);
                }
            },
            None => {
                assert(once[0] == r.id);
            },
        }
    }
}

} // verus!
