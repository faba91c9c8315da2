//! The request registry: typed reads and writes of the store's entities —
//! request records under their ids, and the pending, index and completed
//! collections under their reserved keys.

use vstd::prelude::*;

use crate::codec::{
    decode_request, decode_str_list, encode_index, encode_str_list, index_view,
    spec_decode_index, spec_decode_request, spec_decode_str_list, spec_enc_index,
    spec_enc_str_list,
};
use crate::db::{
    completed_key, pending_index_key, pending_key, spec_completed_key, spec_pending_index_key,
    spec_pending_key, Database,
};
use crate::errors::DbError;
use crate::text::vec_contains_str;
use crate::types::{BRequest, BRequestView};

verus! {

/// The record stored under a request id, where one is stored and decodes.
pub open spec fn request_at(m: Map<Seq<char>, Seq<u8>>, id: Seq<char>) -> Option<BRequestView> {
    if m.contains_key(id) {
        spec_decode_request(m[id])
    } else {
        None
    }
}

/// The pending id list, where it is stored and decodes.
pub open spec fn pending_list_at(m: Map<Seq<char>, Seq<u8>>) -> Option<Seq<Seq<char>>> {
    if m.contains_key(spec_pending_key()) {
        spec_decode_str_list(m[spec_pending_key()])
    } else {
        None
    }
}

/// The completed id list, where it is stored and decodes.
pub open spec fn completed_list_at(m: Map<Seq<char>, Seq<u8>>) -> Option<Seq<Seq<char>>> {
    if m.contains_key(spec_completed_key()) {
        spec_decode_str_list(m[spec_completed_key()])
    } else {
        None
    }
}

/// The pending index entries, where they are stored and decode.
pub open spec fn index_at(m: Map<Seq<char>, Seq<u8>>) -> Option<Seq<(Seq<char>, i128)>> {
    if m.contains_key(spec_pending_index_key()) {
        spec_decode_index(m[spec_pending_index_key()])
    } else {
        None
    }
}

/// The reserved keys hold nothing or well-formed encodings.  Every write the
/// library makes keeps this.
pub open spec fn lists_wf(m: Map<Seq<char>, Seq<u8>>) -> bool {
    &&& m.contains_key(spec_pending_key()) ==> spec_decode_str_list(m[spec_pending_key()]) is Some
    &&& m.contains_key(spec_completed_key()) ==> spec_decode_str_list(
        m[spec_completed_key()],
    ) is Some
    &&& m.contains_key(spec_pending_index_key()) ==> spec_decode_index(
        m[spec_pending_index_key()],
    ) is Some
}

/// The record stored under a request id: absent keys yield nothing, a stored
/// value that is no record is an error.
pub fn request_data(request_id: &str, db: &Database) -> (r: Result<Option<BRequest>, DbError>)
    ensures
        match r {
            Ok(Some(req)) => request_at(db@, request_id@) == Some(req@),
            Ok(None) => !db@.contains_key(request_id@),
            Err(_) => db@.contains_key(request_id@) && request_at(db@, request_id@) is None,
        },
{
    match db.read(request_id) {
        Ok(Some(bytes)) => match decode_request(&bytes) {
            Some(req) => Ok(Some(req)),
            None => Err(DbError::ReadDb(String::new())),
        },
        Ok(None) => Ok(None),
        Err(e) => Err(e),
    }
}

/// Write a request record whole under its id.
pub fn put_request(request: &BRequest, db: &mut Database) -> (r: Result<(), DbError>)
    ensures
        r is Ok,
        final(db)@ == old(db)@.insert(request.id@, crate::codec::spec_enc_brequest(request@)),
        request_at(final(db)@, request.id@) == Some(request@),
{
    let bytes = crate::codec::encode_request(request);
    proof {
        crate::codec::lemma_request_round_trip(request@);
    }
    db.write_value(request.id.as_str(), bytes)
}

/// The pending id list, or nothing when none was ever written.
pub fn pending_requests(db: &Database) -> (r: Option<Vec<String>>)
    requires
        lists_wf(db@),
    ensures
        match r {
            Some(v) => pending_list_at(db@) == Some(v.deep_view()),
            None => !db@.contains_key(spec_pending_key()),
        },
{
    match db.read(pending_key()) {
        Ok(Some(bytes)) => match decode_str_list(&bytes) {
            Some(v) => Some(v),
            None => {
                proof {
                    assert(false);
                }
                None
            },
        },
        Ok(None) => None,
        Err(_) => {
            proof {
                assert(false);
            }
            None
        },
    }
}

/// The completed id list, or nothing when none was ever written.
pub fn completed_requests(db: &Database) -> (r: Option<Vec<String>>)
    requires
        lists_wf(db@),
    ensures
        match r {
            Some(v) => completed_list_at(db@) == Some(v.deep_view()),
            None => !db@.contains_key(spec_completed_key()),
        },
{
    match db.read(completed_key()) {
        Ok(Some(bytes)) => match decode_str_list(&bytes) {
            Some(v) => Some(v),
            None => {
                proof {
                    assert(false);
                }
                None
            },
        },
        Ok(None) => None,
        Err(_) => {
            proof {
                assert(false);
            }
            None
        },
    }
}

/// What the completed list becomes when an id finalizes: appended once, never
/// twice — the list holds no duplicates.
pub open spec fn spec_add_completed(l: Option<Seq<Seq<char>>>, id: Seq<char>) -> Seq<Seq<char>> {
    match l {
        Some(l) => if l.contains(id) {
            l
        } else {
            l.push(id)
        },
        None => seq![id],
    }
}

/// Append a finalized id to the completed list, starting the list when none
/// exists yet.
pub fn add_completed_request(request_id: &str, db: &mut Database) -> (r: Result<(), DbError>)
    ensures
        r is Ok,
        final(db)@ == old(db)@.insert(
            spec_completed_key(),
            spec_enc_str_list(spec_add_completed(completed_list_at(old(db)@), request_id@)),
        ),
{
    let decoded: Option<Vec<String>> = match db.read(completed_key()) {
        Ok(Some(bytes)) => decode_str_list(&bytes),
        Ok(None) => None,
        Err(_) => None,
    };
    match decoded {
        Some(mut completed) => {
            if !vec_contains_str(&completed, request_id) {
                let ghost prior = completed.deep_view();
                completed.push(request_id.to_owned());
                proof {
                    assert(completed.deep_view() =~= prior.push(request_id@));
                }
            }
            update_vector(db, completed_key(), completed)
        },
        None => {
            let mut completed: Vec<String> = Vec::new();
            completed.push(request_id.to_owned());
            proof {
                assert(completed.deep_view() =~= seq![request_id@]);
            }
            update_vector(db, completed_key(), completed)
        },
    }
}

/// Store a list of ids under a key.
pub fn update_vector(db: &mut Database, key: &str, requests: Vec<String>) -> (r: Result<
    (),
    DbError,
>)
    ensures
        r is Ok,
        final(db)@ == old(db)@.insert(key@, spec_enc_str_list(requests.deep_view())),
{
    let bytes = encode_str_list(&requests);
    db.write_value(key, bytes)
}

/// Store an id -> slot index under a key.
pub fn update_hashmap(db: &mut Database, key: &str, indexes: Vec<(String, i128)>) -> (r: Result<
    (),
    DbError,
>)
    ensures
        r is Ok,
        final(db)@ == old(db)@.insert(key@, spec_enc_index(index_view(indexes@))),
{
    let bytes = encode_index(&indexes);
    db.write_value(key, bytes)
}

/// Every id on the completed list names a stored record that completed with
/// a fully populated output; completed ids are request ids, apart from the
/// reserved keys.
pub open spec fn completed_wf(m: Map<Seq<char>, Seq<u8>>) -> bool {
    match completed_list_at(m) {
        Some(l) => forall|i: int|
            0 <= i < l.len() ==> completed_entry_ok(m, #[trigger] l[i]),
        None => true,
    }
}

/// One completed id: unreserved, with a completed and fully populated record.
pub open spec fn completed_entry_ok(m: Map<Seq<char>, Seq<u8>>, id: Seq<char>) -> bool {
    &&& id != spec_pending_key()
    &&& id != spec_pending_index_key()
    &&& id != spec_completed_key()
    &&& match request_at(m, id) {
        Some(req) => req.status == crate::types::Status::Completed
            && req.output.detination_contract_id_or_mint.len() > 0
            && req.output.detination_token_id_or_account.len() > 0,
        None => false,
    }
}

/// Completing a request preserves the completed-list law: after a store
/// change that wrote one completed, fully populated record under an
/// unreserved id, appended that id to the completed list, and left every
/// other record alone, every listed id still satisfies the law.
pub proof fn lemma_complete_preserves_completed_wf(
    pre: Map<Seq<char>, Seq<u8>>,
    post: Map<Seq<char>, Seq<u8>>,
    id: Seq<char>,
    req: BRequestView,
)
    requires
        completed_wf(pre),
        id != spec_pending_key(),
        id != spec_pending_index_key(),
        id != spec_completed_key(),
        request_at(post, id) == Some(req),
        req.status == crate::types::Status::Completed,
        req.output.detination_contract_id_or_mint.len() > 0,
        req.output.detination_token_id_or_account.len() > 0,
        completed_list_at(post) == Some(spec_add_completed(completed_list_at(pre), id)),
        forall|k: Seq<char>|
            k != id && k != spec_completed_key() ==> (#[trigger] post.contains_key(k)
                == pre.contains_key(k) && (pre.contains_key(k) ==> post[k] == pre[k])),
    ensures
        completed_wf(post),
{
    let l2 = spec_add_completed(completed_list_at(pre), id);
    assert forall|i: int| 0 <= i < l2.len() implies completed_entry_ok(post, #[trigger] l2[i]) by {
        match completed_list_at(pre) {
            Some(l) => {
                if i < l.len() {
                    assert(completed_entry_ok(pre, l[i]));
                    if l[i] != id {
                        assert(post.contains_key(l[i]) == pre.contains_key(l[i]));
                    }
                } else {
                    assert(l2[i] == id);
                }
            },
            None => {
                assert(l2[i] == id);
            },
        }
    }
}

} // verus!
