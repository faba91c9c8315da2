//! The recovery orchestrator's logic: what to do for each stored status when
//! the relayer restarts, which errors mean a raced request must be canceled,
//! and the sweep that clears finished requests out of the pending set.
//! Performing the chain calls an action asks for is outside work; every
//! decision is verified here.

use vstd::prelude::*;
use vstd::string::StringSliceAdditionalSpecFns;

use crate::db::{spec_pending_index_key, spec_pending_key, Database};
use crate::errors::DbError;
use crate::pending::{
    distinct_seq, pending_sync, remove_pending_request, spec_pending_of, unreserved,
};
use crate::registry::{pending_list_at, request_at, request_data};
use crate::types::{is_terminal, BRequest, Status};

verus! {

/// What recovery does with one pending request, by its stored status.
pub enum RecoveryAction {
    /// Freshly received: re-check the token owner on the origin chain.
    VerifyOwnership,
    /// Token received: read the origin metadata and enqueue the mint.
    MintFromMetadata,
    /// Minted: look the carried transaction up on the destination chain.
    CheckDestinationTx(String),
    /// Finished either way: drop the id from the pending set.
    Finish,
}

/// The branch recovery takes for a request: each status has exactly one.
/// A minted request always carries the mint transaction's hash last.
pub fn recovery_action(r: &BRequest) -> (a: RecoveryAction)
    requires
        r.status == Status::TokenMinted ==> r.tx_hashes@.len() > 0,
    ensures
        match a {
            RecoveryAction::VerifyOwnership => r.status == Status::RequestReceived,
            RecoveryAction::MintFromMetadata => r.status == Status::TokenReceived,
            RecoveryAction::CheckDestinationTx(tx) => r.status == Status::TokenMinted && tx@
                == r@.tx_hashes.last(),
            RecoveryAction::Finish => is_terminal(r.status),
        },
{
    match r.status {
        Status::RequestReceived => RecoveryAction::VerifyOwnership,
        Status::TokenReceived => RecoveryAction::MintFromMetadata,
        Status::TokenMinted => RecoveryAction::CheckDestinationTx(
            r.tx_hashes[r.tx_hashes.len() - 1].clone(),
        ),
        Status::Completed => RecoveryAction::Finish,
        Status::Canceled => RecoveryAction::Finish,
    }
}


/// What the destination-chain lookup decides for a minted pending request.
pub enum DestinationVerdict {
    /// The mint landed and its token carries metadata: the request completes.
    Complete,
    /// The transaction is unknown, or the token has no metadata: mint again.
    Remint,
}

/// The reconciliation decision for a request stored as minted: it completes
/// exactly when the destination chain has the recorded transaction and the
/// destination token's metadata is readable; anything else re-mints.
pub fn destination_check_outcome(tx_found: bool, metadata_ok: bool) -> (r: DestinationVerdict)
    ensures
        r is Complete <==> (tx_found && metadata_ok),
{
    if tx_found && metadata_ok {
        DestinationVerdict::Complete
    } else {
        DestinationVerdict::Remint
    }
}

/// A byte string contains another one somewhere.
pub open spec fn contains_sub(h: Seq<u8>, n: Seq<u8>) -> bool {
    exists|k: int| 0 <= k <= h.len() - n.len() && #[trigger] h.subrange(k, k + n.len() as int) == n
}

fn bytes_match_at(h: &[u8], n: &[u8], k: usize) -> (r: bool)
    requires
        k + n@.len() <= h@.len(),
    ensures
        r == (h@.subrange(k as int, k as int + n@.len() as int) == n@),
{
    let m = n.len();
    let hl = h.len();
    let mut j: usize = 0;
    while j < m
        invariant
            m == n@.len(),
            hl == h@.len(),
            k + m <= h@.len(),
            j <= m,
            forall|u: int| 0 <= u < j ==> h@[k + u] == n@[u],
        decreases m - j,
    {
        if h[k + j] != n[j] {
            proof {
                assert(h@.subrange(k as int, k as int + n@.len() as int)[j as int] != n@[j as int]);
            }
            return false;
        }
        j = j + 1;
    }
    proof {
        assert(h@.subrange(k as int, k as int + n@.len() as int) =~= n@);
    }
    true
}

/// Whether one string's bytes occur inside another's.
pub fn str_contains(hay: &str, needle: &str) -> (r: bool)
    ensures
        r == contains_sub(hay.spec_bytes(), needle.spec_bytes()),
{
    let h = hay.as_bytes();
    let n = needle.as_bytes();
    if n.len() > h.len() {
        return false;
    }
    if n.len() == 0 {
        proof {
            assert(h@.subrange(0, 0 + n@.len() as int) =~= n@);
            assert(contains_sub(hay.spec_bytes(), needle.spec_bytes()));
        }
        return true;
    }
    let hl = h.len();
    let last = h.len() - n.len();
    let mut k: usize = 0;
    while k <= last
        invariant
            h@ == hay.spec_bytes(),
            n@ == needle.spec_bytes(),
            last == h@.len() - n@.len(),
            n@.len() >= 1,
            hl == h@.len(),
            last < hl,
            k <= last + 1,
            forall|t: int| 0 <= t < k ==> #[trigger] h@.subrange(t, t + n@.len() as int) != n@,
        decreases last + 1 - k,
    {
        if bytes_match_at(h, n, k) {
            return true;
        }
        k = k + 1;
    }
    false
}

/// Whether a chain error during recovery means the request races an earlier
/// one and must be canceled: the message names an address already in use.
pub fn should_cancel_recovery_error(msg: &str) -> (r: bool)
    ensures
        r == (contains_sub(msg.spec_bytes(), "address".spec_bytes()) && contains_sub(
            msg.spec_bytes(),
            "already in use".spec_bytes(),
        )),
{
    str_contains(msg, "address") && str_contains(msg, "already in use")
}

/// A stored record under this id has finished, completed or canceled.
pub open spec fn terminal_at(m: Map<Seq<char>, Seq<u8>>, id: Seq<char>) -> bool {
    match request_at(m, id) {
        Some(req) => is_terminal(req.status),
        None => false,
    }
}

/// Sweep the pending set: every id whose stored record has finished —
/// completed or canceled — leaves the set, every other pending id keeps its
/// place, and nothing else changes.  After the sweep no finished id is
/// pending.
pub fn sweep_terminal_pending(db: &mut Database) -> (r: Result<(), DbError>)
    requires
        pending_sync(old(db)@),
    ensures
        r is Ok,
        pending_sync(final(db)@),
        forall|k: Seq<char>|
            k != spec_pending_key() && k != spec_pending_index_key() ==> (
            #[trigger] final(db)@.contains_key(k) == old(db)@.contains_key(k) && (old(
                db,
            )@.contains_key(k) ==> final(db)@[k] == old(db)@[k])),
        forall|id: Seq<char>| #[trigger]
            spec_pending_of(final(db)@).contains(id) ==> !terminal_at(final(db)@, id),
        forall|id: Seq<char>|
            spec_pending_of(old(db)@).contains(id) && !terminal_at(old(db)@, id)
                ==> #[trigger] spec_pending_of(final(db)@).contains(id),
{
    let snapshot = match crate::registry::pending_requests(db) {
        Some(v) => v,
        None => {
            return Ok(());
        },
    };
    let ghost l0 = snapshot.deep_view();
    let n = snapshot.len();
    let mut i: usize = 0;
    while i < n
        invariant
            n == l0.len(),
            snapshot.deep_view() == l0,
            i <= n,
            pending_sync(db@),
            distinct_seq(l0),
            unreserved(l0),
            forall|k: Seq<char>|
                k != spec_pending_key() && k != spec_pending_index_key() ==> (
                #[trigger] db@.contains_key(k) == old(db)@.contains_key(k) && (old(
                    db,
                )@.contains_key(k) ==> db@[k] == old(db)@[k])),
            forall|id: Seq<char>| #[trigger]
                spec_pending_of(db@).contains(id) ==> l0.contains(id),
            forall|t: int| i <= t < n ==> spec_pending_of(db@).contains(#[trigger] l0[t]),
            forall|t: int|
                0 <= t < i ==> (terminal_at(old(db)@, #[trigger] l0[t]) ==> !spec_pending_of(
                    db@,
                ).contains(l0[t])),
            forall|t: int|
                0 <= t < i ==> (!terminal_at(old(db)@, #[trigger] l0[t]) ==> spec_pending_of(
                    db@,
                ).contains(l0[t])),
        decreases n - i,
    {
        let id = &snapshot[i];
        let terminal = match request_data(id.as_str(), db) {
            Ok(Some(req)) => req.status == Status::Completed || req.status == Status::Canceled,
            _ => false,
        };
        proof {
            assert(l0[i as int] != spec_pending_key() && l0[i as int] != spec_pending_index_key());
            assert(terminal == terminal_at(db@, l0[i as int]));
            assert(terminal_at(db@, l0[i as int]) == terminal_at(old(db)@, l0[i as int])) by {
                assert(db@.contains_key(l0[i as int]) == old(db)@.contains_key(l0[i as int]));
            }
        }
        if terminal {
            proof {
                assert(spec_pending_of(db@).contains(l0[i as int]));
                assert(pending_list_at(db@) matches Some(l) && l.contains(l0[i as int]));
            }
            let ghost l_before = spec_pending_of(db@);
            let _ = remove_pending_request(id.as_str(), db);
            proof {
                let slot = crate::pending::slot_of(l_before, l0[i as int]);
                let l_after = crate::pending::spec_swap_remove_list(l_before, slot);
                assert(spec_pending_of(db@) == l_after);
                assert(0 <= slot < l_before.len() && l_before[slot] == l0[i as int]) by {
                    assert(l_before.contains(l0[i as int]));
                }
                assert forall|id2: Seq<char>|
                    l_before.contains(id2) && id2 != l0[i as int] implies #[trigger] l_after.contains(
                    id2,
                ) by {
                    let p = choose|p: int| 0 <= p < l_before.len() && l_before[p] == id2;
                    if p == l_before.len() - 1 {
                        assert(l_after[slot] == id2);
                    } else if p != slot {
                        assert(l_after[p] == id2);
                    }
                }
                assert forall|id2: Seq<char>| #[trigger]
                    l_after.contains(id2) implies l_before.contains(id2) by {
                    let p = choose|p: int| 0 <= p < l_after.len() && l_after[p] == id2;
                    if p == slot {
                        assert(l_before[l_before.len() - 1] == id2);
                    } else {
                        assert(l_before[p] == id2);
                    }
                }
            }
        }
        i = i + 1;
    }
    proof {
        assert forall|id: Seq<char>| #[trigger]
            spec_pending_of(db@).contains(id) implies !terminal_at(db@, id) by {
            assert(l0.contains(id));
            let t = choose|t: int| 0 <= t < l0.len() && l0[t] == id;
            if terminal_at(db@, id) {
                assert(id != spec_pending_key() && id != spec_pending_index_key());
                assert(terminal_at(old(db)@, id)) by {
                    assert(db@.contains_key(id) == old(db)@.contains_key(id));
                }
                assert(!spec_pending_of(db@).contains(l0[t]));
            }
        }
    }
    Ok(())
}

} // verus!
