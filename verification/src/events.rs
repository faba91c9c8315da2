//! The event listeners' logic: decoding Solana program-data log lines, and
//! the state transitions an observed event drives.  The websocket
//! subscriptions that deliver raw lines live outside; every decision made on
//! a line is verified here.

use vstd::prelude::*;
use vstd::string::StringSliceAdditionalSpecFns;
use vstd::utf8::valid_utf8;

use crate::chain::{b64_decode, base64_decoded};
use crate::db::Database;
use crate::errors::DbError;
use crate::registry::{request_at, request_data};
use crate::text::str_eq;
use crate::types::{Function, MessageMint, Status, TxMessage};

verus! {

/// The bytes of the log-line prefix that carries program event data:
/// "Program data: ".
pub open spec fn spec_program_data_tag() -> Seq<u8> {
    seq![80u8, 114u8, 111u8, 103u8, 114u8, 97u8, 109u8, 32u8, 100u8, 97u8, 116u8, 97u8, 58u8, 32u8]
}

/// The base64 part of a log line that announces program event data.
pub open spec fn spec_strip_program_data(b: Seq<u8>) -> Option<Seq<u8>> {
    if b.len() >= 14 && b.take(14) == spec_program_data_tag() {
        Some(b.skip(14))
    } else {
        None
    }
}

/// A byte string with its trailing zero bytes removed.
pub open spec fn trim_zeros(b: Seq<u8>) -> Seq<u8>
    decreases b.len(),
{
    if b.len() > 0 && b.last() == 0 {
        trim_zeros(b.drop_last())
    } else {
        b
    }
}

/// The fields of a decoded event payload: an 8-byte discriminator, two
/// 32-byte addresses, and — after one length byte — the request id, padded
/// with zero bytes.
pub open spec fn spec_event_fields(p: Seq<u8>) -> Option<(Seq<u8>, Seq<u8>, Seq<u8>, Seq<u8>)> {
    if p.len() >= 73 {
        Some((p.take(8), p.subrange(8, 40), p.subrange(40, 72), trim_zeros(p.skip(73))))
    } else {
        None
    }
}

/// The full decoding pipeline of a log line: strip the program-data prefix,
/// decode the base64 payload, split it into fields.
pub open spec fn spec_decode_event(b: Seq<u8>) -> Option<(Seq<u8>, Seq<u8>, Seq<u8>, Seq<u8>)> {
    match spec_strip_program_data(b) {
        Some(data) => match base64_decoded(data) {
            Some(p) => spec_event_fields(p),
            None => None,
        },
        None => None,
    }
}

/// A decoded bridge event from a Solana log line.
pub struct SolanaEvent {
    pub discriminator: Vec<u8>,
    pub mint: Vec<u8>,
    pub token_account: Vec<u8>,
    pub request_id: String,
}

impl View for SolanaEvent {
    type V = (Seq<u8>, Seq<u8>, Seq<u8>, Seq<char>);

    open spec fn view(&self) -> (Seq<u8>, Seq<u8>, Seq<u8>, Seq<char>) {
        (self.discriminator@, self.mint@, self.token_account@, self.request_id@)
    }
}

fn program_data_tag() -> (r: Vec<u8>)
    ensures
        r@ == spec_program_data_tag(),
{
    let mut t: Vec<u8> = Vec::new();
    t.push(80);
    t.push(114);
    t.push(111);
    t.push(103);
    t.push(114);
    t.push(97);
    t.push(109);
    t.push(32);
    t.push(100);
    t.push(97);
    t.push(116);
    t.push(97);
    t.push(58);
    t.push(32);
    proof {
        assert(t@ =~= spec_program_data_tag());
    }
    t
}

/// Decode one log line as a bridge event, or nothing where the line carries
/// no program data, no base64, too short a payload, or a request id that is
/// no UTF-8.
pub fn decode_event(log: &str) -> (r: Option<SolanaEvent>)
    ensures
        match spec_decode_event(log.spec_bytes()) {
            Some(f) => if valid_utf8(f.3) {
                r matches Some(ev) && ev.discriminator@ == f.0 && ev.mint@ == f.1
                    && ev.token_account@ == f.2 && vstd::utf8::encode_utf8(ev.request_id@) == f.3
            } else {
                r is None
            },
            None => r is None,
        },
{
    let lb = log.as_bytes();
    let tag = program_data_tag();
    if lb.len() < 14 {
        return None;
    }
    let mut i: usize = 0;
    while i < 14
        invariant
            lb@ == log.spec_bytes(),
            tag@ == spec_program_data_tag(),
            lb@.len() >= 14,
            i <= 14,
            forall|j: int| 0 <= j < i ==> lb@[j] == spec_program_data_tag()[j],
        decreases 14 - i,
    {
        if lb[i] != tag[i] {
            proof {
                assert(log.spec_bytes().take(14)[i as int] != spec_program_data_tag()[i as int]);
            }
            return None;
        }
        i = i + 1;
    }
    proof {
        assert(log.spec_bytes().take(14) =~= spec_program_data_tag());
    }
    let data = vstd::slice::slice_subrange(lb, 14, lb.len());
    proof {
        assert(data@ =~= log.spec_bytes().skip(14));
    }
    let payload = match b64_decode(data) {
        Some(p) => p,
        None => {
            return None;
        },
    };
    if payload.len() < 73 {
        return None;
    }
    let disc = vstd::slice::slice_to_vec(vstd::slice::slice_subrange(payload.as_slice(), 0, 8));
    proof {
        assert(disc@ =~= payload@.take(8));
    }
    let mint = vstd::slice::slice_to_vec(vstd::slice::slice_subrange(payload.as_slice(), 8, 40));
    let account = vstd::slice::slice_to_vec(
        vstd::slice::slice_subrange(payload.as_slice(), 40, 72),
    );
    let mut id_bytes = vstd::slice::slice_to_vec(
        vstd::slice::slice_subrange(payload.as_slice(), 73, payload.len()),
    );
    while id_bytes.len() > 0 && id_bytes[id_bytes.len() - 1] == 0
        invariant
            trim_zeros(id_bytes@) == trim_zeros(payload@.skip(73)),
        decreases id_bytes@.len(),
    {
        let _ = id_bytes.pop();
    }
    proof {
        assert(trim_zeros(id_bytes@) == id_bytes@);
    }
    let request_id = match crate::text::utf8_string(&id_bytes) {
        Some(s) => s,
        None => {
            return None;
        },
    };
    Some(SolanaEvent { discriminator: disc, mint, token_account: account, request_id })
}

/// Whether two byte strings are equal.
pub fn bytes_eq(a: &Vec<u8>, b: &Vec<u8>) -> (r: bool)
    ensures
        r == (a@ == b@),
{
    if a.len() != b.len() {
        return false;
    }
    let n = a.len();
    let mut i: usize = 0;
    while i < n
        invariant
            n == a@.len() == b@.len(),
            i <= n,
            forall|j: int| 0 <= j < i ==> a@[j] == b@[j],
        decreases n - i,
    {
        if a[i] != b[i] {
            return false;
        }
        i = i + 1;
    }
    proof {
        assert(a@ =~= b@);
    }
    true
}

/// Every key but the named one is untouched.
pub open spec fn only_key_changed(
    pre: Map<Seq<char>, Seq<u8>>,
    post: Map<Seq<char>, Seq<u8>>,
    key: Seq<char>,
) -> bool {
    forall|k: Seq<char>|
        k != key ==> (#[trigger] post.contains_key(k) == pre.contains_key(k) && (pre.contains_key(
            k,
        ) ==> post[k] == pre[k]))
}

/// The mint order an ownership-confirmed request sends to the opposite
/// chain's worker.
pub fn mint_message(request_id: &str, token_metadata: &str) -> (r: TxMessage)
    ensures
        r.accion is Mint,
        r.mint_data matches Some(m) && m.request_id@ == request_id@ && m.token_metadata@
            == token_metadata@,
        r.request_data is None,
{
    TxMessage {
        accion: Function::Mint,
        mint_data: Some(
            MessageMint {
                request_id: request_id.to_owned(),
                token_metadata: token_metadata.to_owned(),
            },
        ),
        request_data: None,
    }
}

/// How an ownership check left a request.
pub enum OwnershipOutcome {
    Advanced,
    Canceled,
    Skipped,
}

/// Drive a request by the origin chain's ownership verdict on its token: a
/// freshly received request advances one step when the bridge holds the
/// asset and is canceled when it does not; anything else — no record, a
/// malformed record, a request already past the first step — is left alone.
pub fn handle_ownership_check(request_id: &str, db: &mut Database, bridge_owns: bool) -> (r:
    Result<OwnershipOutcome, DbError>)
    ensures
        r is Ok,
        match request_at(old(db)@, request_id@) {
            Some(req) => if req.status == Status::RequestReceived {
                if bridge_owns {
                    &&& r == Ok::<_, DbError>(OwnershipOutcome::Advanced)
                    &&& request_at(final(db)@, req.id) matches Some(req2) && req2.status
                        == Status::TokenReceived && req2.id == req.id && req2.input == req.input
                        && req2.tx_hashes == req.tx_hashes && req2.output == req.output
                    &&& only_key_changed(old(db)@, final(db)@, req.id)
                } else {
                    &&& r == Ok::<_, DbError>(OwnershipOutcome::Canceled)
                    &&& request_at(final(db)@, req.id) matches Some(req2) && req2.status
                        == Status::Canceled && req2.id == req.id && req2.input == req.input
                        && req2.tx_hashes == req.tx_hashes && req2.output == req.output
                    &&& only_key_changed(old(db)@, final(db)@, req.id)
                }
            } else {
                r == Ok::<_, DbError>(OwnershipOutcome::Skipped) && final(db)@ == old(db)@
            },
            None => r == Ok::<_, DbError>(OwnershipOutcome::Skipped) && final(db)@ == old(db)@,
        },
{
    match request_data(request_id, db) {
        Ok(Some(mut request)) => {
            if request.status == Status::RequestReceived {
                if bridge_owns {
                    let _ = request.update_state(db);
                    proof {
                        crate::codec::lemma_request_round_trip(request@);
                    }
                    Ok(OwnershipOutcome::Advanced)
                } else {
                    let _ = request.cancel(db);
                    proof {
                        crate::codec::lemma_request_round_trip(request@);
                    }
                    Ok(OwnershipOutcome::Canceled)
                }
            } else {
                Ok(OwnershipOutcome::Skipped)
            }
        },
        _ => Ok(OwnershipOutcome::Skipped),
    }
}

/// Drive a request by an observed destination-chain mint event: a request
/// already marked minted, whose stored output matches the event's token and
/// destination, completes; any other sighting is a no-op — completion is
/// absorbing, so the worker-side finalization and this observation never
/// double-finalize.
pub fn apply_token_minted_event(
    request_id: &str,
    token_contract: &str,
    destination: &str,
    db: &mut Database,
) -> (r: Result<bool, DbError>)
    ensures
        r is Ok,
        match request_at(old(db)@, request_id@) {
            Some(req) => if req.status == Status::TokenMinted
                && req.output.detination_contract_id_or_mint == token_contract@
                && req.output.detination_token_id_or_account == destination@ {
                &&& r == Ok::<_, DbError>(true)
                &&& request_at(final(db)@, req.id) matches Some(req2) && req2.status
                    == Status::Completed && req2.id == req.id && req2.input == req.input
                    && req2.tx_hashes == req.tx_hashes && req2.output == req.output
                &&& only_key_changed(old(db)@, final(db)@, req.id)
            } else {
                r == Ok::<_, DbError>(false) && final(db)@ == old(db)@
            },
            None => r == Ok::<_, DbError>(false) && final(db)@ == old(db)@,
        },
{
    match request_data(request_id, db) {
        Ok(Some(mut request)) => {
            if request.status == Status::TokenMinted && str_eq(
                request.output.detination_contract_id_or_mint.as_str(),
                token_contract,
            ) && str_eq(request.output.detination_token_id_or_account.as_str(), destination) {
                let _ = request.update_state(db);
                proof {
                    crate::codec::lemma_request_round_trip(request@);
                }
                Ok(true)
            } else {
                Ok(false)
            }
        },
        _ => Ok(false),
    }
}

} // verus!
