//! The pending-request set: an ordered list of in-flight request ids plus an
//! id -> slot index, stored under two reserved keys.  Together they form a
//! swap-remove set — insert at the end, delete by moving the last id into
//! the freed slot.

use vstd::prelude::*;

use crate::codec::{
    decode_index, index_view, lemma_decode_str_list_fits, lemma_index_round_trip,
    lemma_str_list_round_trip, str_seq_fits,
};
use crate::db::{
    lemma_reserved_keys_distinct, pending_index_key, pending_key, spec_completed_key,
    spec_pending_index_key, spec_pending_key, Database,
};
use crate::errors::DbError;
use crate::registry::{
    index_at, lists_wf, pending_list_at, pending_requests, update_hashmap, update_vector,
};
use crate::text::str_eq;
use vstd::string::StrSliceExecFns;

verus! {

/// No id appears twice.
pub open spec fn distinct_seq(l: Seq<Seq<char>>) -> bool {
    forall|i: int, j: int| 0 <= i < j < l.len() ==> l[i] != l[j]
}

/// Pending ids are request ids: none collides with a reserved key.
pub open spec fn unreserved(l: Seq<Seq<char>>) -> bool {
    forall|i: int|
        0 <= i < l.len() ==> #[trigger] l[i] != spec_pending_key() && l[i]
            != spec_pending_index_key() && l[i] != spec_completed_key()
}

/// The index entries the list denotes: each id paired with its slot.
pub open spec fn spec_enum(l: Seq<Seq<char>>) -> Seq<(Seq<char>, i128)> {
    Seq::new(l.len(), |i: int| (l[i], i as i128))
}

/// The mapping a stored entry sequence denotes: later entries win.
pub open spec fn index_map(s: Seq<(Seq<char>, i128)>) -> Map<Seq<char>, i128>
    decreases s.len(),
{
    if s.len() == 0 {
        Map::empty()
    } else {
        index_map(s.drop_last()).insert(s.last().0, s.last().1)
    }
}

/// The two pending keys are in step: both absent (a fresh store), or the
/// list is duplicate-free, made of request ids, and the index enumerates it.
pub open spec fn pending_sync(m: Map<Seq<char>, Seq<u8>>) -> bool {
    &&& lists_wf(m)
    &&& match (pending_list_at(m), index_at(m)) {
        (None, None) => true,
        (Some(l), Some(e)) => distinct_seq(l) && unreserved(l) && e == spec_enum(l),
        _ => false,
    }
}

/// The pending list, empty when never written.
pub open spec fn spec_pending_of(m: Map<Seq<char>, Seq<u8>>) -> Seq<Seq<char>> {
    match pending_list_at(m) {
        Some(l) => l,
        None => Seq::empty(),
    }
}

/// The slot an id occupies in a duplicate-free list.
pub open spec fn slot_of(l: Seq<Seq<char>>, id: Seq<char>) -> int {
    choose|i: int| 0 <= i < l.len() && l[i] == id
}

/// Swap-remove: the last id moves into the freed slot, the list shortens by
/// one.
pub open spec fn spec_swap_remove_list(l: Seq<Seq<char>>, slot: int) -> Seq<Seq<char>> {
    l.update(slot, l.last()).drop_last()
}

/// The index always mirrors the list: every pending id is in the index at
/// exactly its slot, and the index holds nothing else.
pub proof fn lemma_pending_index_consistent(l: Seq<Seq<char>>, e: Seq<(Seq<char>, i128)>)
    requires
        distinct_seq(l),
        e == spec_enum(l),
    ensures
        forall|i: int|
            0 <= i < l.len() ==> index_map(e).contains_key(#[trigger] l[i]) && index_map(e)[l[i]]
                == i as i128,
        forall|id: Seq<char>| #[trigger] index_map(e).contains_key(id) ==> l.contains(id),
    decreases l.len(),
{
    if l.len() > 0 {
        let n = l.len() as int;
        let lp = l.drop_last();
        assert(spec_enum(l).drop_last() =~= spec_enum(lp));
        lemma_pending_index_consistent(lp, spec_enum(lp));
        assert(index_map(e) == index_map(spec_enum(lp)).insert(l[n - 1], (n - 1) as i128));
        assert forall|i: int|
            0 <= i < n implies index_map(e).contains_key(#[trigger] l[i]) && index_map(e)[l[i]]
            == i as i128 by {
            if i < n - 1 {
                assert(lp[i] == l[i]);
                assert(l[i] != l[n - 1]);
            }
        }
        assert forall|id: Seq<char>| #[trigger] index_map(e).contains_key(id) implies l.contains(
            id,
        ) by {
            if id == l[n - 1] {
                assert(l[n - 1] == id);
            } else {
                assert(index_map(spec_enum(lp)).contains_key(id));
                assert(lp.contains(id));
                let j = choose|j: int| 0 <= j < lp.len() && lp[j] == id;
                assert(l[j] == id);
            }
        }
    }
}

fn update_pending_vector(db: &mut Database, requests: Vec<String>) -> (r: Result<(), DbError>)
    ensures
        r is Ok,
        final(db)@ == old(db)@.insert(
            spec_pending_key(),
            crate::codec::spec_enc_str_list(requests.deep_view()),
        ),
{
    update_vector(db, pending_key(), requests)
}

fn update_pending_hashmap(db: &mut Database, indexes: Vec<(String, i128)>) -> (r: Result<
    (),
    DbError,
>)
    ensures
        r is Ok,
        final(db)@ == old(db)@.insert(
            spec_pending_index_key(),
            crate::codec::spec_enc_index(index_view(indexes@)),
        ),
{
    update_hashmap(db, pending_index_key(), indexes)
}

/// Read both pending collections as stored.
pub fn get_pending_request_and_index(db: &Database) -> (r: (
    Option<Vec<String>>,
    Option<Vec<(String, i128)>>,
))
    requires
        lists_wf(db@),
    ensures
        match r.0 {
            Some(v) => pending_list_at(db@) == Some(v.deep_view()),
            None => !db@.contains_key(spec_pending_key()),
        },
        match r.1 {
            Some(v) => index_at(db@) == Some(index_view(v@)),
            None => !db@.contains_key(spec_pending_index_key()),
        },
{
    let pending = pending_requests(db);
    let index = match db.read(pending_index_key()) {
        Ok(Some(bytes)) => match decode_index(&bytes) {
            Some(v) => Some(v),
            None => {
                proof {
                    assert(false);
                }
                None
            },
        },
        Ok(None) => None,
        Err(_) => {
            proof {
                assert(false);
            }
            None
        },
    };
    (pending, index)
}

/// Append an id to the pending list and bind it to its new slot in the
/// index; a fresh store gets both collections started.
pub fn add_pending_request(request_id: &str, db: &mut Database) -> (r: Result<(), DbError>)
    requires
        pending_sync(old(db)@),
        !spec_pending_of(old(db)@).contains(request_id@),
        request_id@ != spec_pending_key(),
        request_id@ != spec_pending_index_key(),
        request_id@ != spec_completed_key(),
    ensures
        r is Ok,
        pending_sync(final(db)@),
        pending_list_at(final(db)@) == Some(spec_pending_of(old(db)@).push(request_id@)),
        index_at(final(db)@) == Some(spec_enum(spec_pending_of(old(db)@).push(request_id@))),
        forall|k: Seq<char>|
            k != spec_pending_key() && k != spec_pending_index_key() ==> (
            #[trigger] final(db)@.contains_key(k) == old(db)@.contains_key(k) && (old(
                db,
            )@.contains_key(k) ==> final(db)@[k] == old(db)@[k])),
{
    let id_len = request_id.unicode_len();
    let (pending_opt, index_opt) = get_pending_request_and_index(db);
    let ghost old_list = spec_pending_of(old(db)@);
    let mut pending: Vec<String> = match pending_opt {
        Some(v) => v,
        None => Vec::new(),
    };
    let mut indexes: Vec<(String, i128)> = match index_opt {
        Some(v) => v,
        None => {
            proof {
                if pending_list_at(old(db)@) is Some {
                    assert(false);
                }
            }
            Vec::new()
        },
    };
    proof {
        if pending_list_at(old(db)@) is None {
            assert(pending.deep_view() =~= old_list);
            assert(index_view(indexes@) =~~= spec_enum(old_list));
            assert(str_seq_fits(old_list));
        } else {
            assert(pending.deep_view() == old_list);
            assert(index_view(indexes@) == spec_enum(old_list));
            lemma_decode_str_list_fits(old(db)@[spec_pending_key()]);
            assert(str_seq_fits(old_list));
        }
    }
    let slot = pending.len();
    let ghost prior_entries = indexes@;
    pending.push(request_id.to_owned());
    let new_len = pending.len();
    indexes.push((request_id.to_owned(), slot as i128));
    let ghost new_list = old_list.push(request_id@);
    proof {
        assert(pending.deep_view() =~= new_list);
        assert(index_view(prior_entries) == spec_enum(old_list));
        assert(prior_entries.len() == old_list.len()) by {
            assert(index_view(prior_entries).len() == spec_enum(old_list).len());
        }
        assert(indexes@ == prior_entries.push(indexes@.last()));
        assert(indexes@.last().0@ == request_id@);
        assert(indexes@.last().1 == slot as i128);
        assert forall|i: int| 0 <= i < new_list.len() implies index_view(indexes@)[i] == spec_enum(
            new_list,
        )[i] by {
            if i < old_list.len() {
                assert(indexes@[i] == prior_entries[i]);
                assert(index_view(prior_entries)[i] == spec_enum(old_list)[i]);
            } else {
                assert(indexes@[i].0@ == request_id@);
                assert(indexes@[i].1 == slot as i128);
            }
        }
        assert(index_view(indexes@) =~= spec_enum(new_list));
        assert(str_seq_fits(new_list)) by {
            assert(new_list.len() == new_len);
            assert(request_id@.len() == id_len);
            assert forall|i: int| 0 <= i < new_list.len() implies crate::codec::str_fits(
                #[trigger] new_list[i],
            ) by {
                if i < old_list.len() {
                    assert(new_list[i] == old_list[i]);
                } else {
                    assert(new_list[i] == request_id@);
                }
            }
        }
    }
    let _ = update_pending_vector(db, pending);
    let _ = update_pending_hashmap(db, indexes);
    proof {
        lemma_reserved_keys_distinct();
        lemma_str_list_round_trip(new_list);
        lemma_index_round_trip(spec_enum(new_list));
        assert(distinct_seq(new_list)) by {
            assert forall|i: int, j: int| 0 <= i < j < new_list.len() implies new_list[i]
                != new_list[j] by {
                if j == new_list.len() - 1 {
                    if new_list[i] == request_id@ {
                        assert(old_list[i] == request_id@);
                        assert(old_list.contains(request_id@));
                    }
                }
            }
        }
    }
    Ok(())
}

/// Remove an id by swap-remove: the last pending id takes its slot and the
/// index follows.  A store with no pending list is left as it is.
pub fn remove_pending_request(request_id: &str, db: &mut Database) -> (r: Result<(), DbError>)
    requires
        pending_sync(old(db)@),
        pending_list_at(old(db)@) matches Some(l) ==> l.contains(request_id@),
    ensures
        r is Ok,
        pending_sync(final(db)@),
        match pending_list_at(old(db)@) {
            None => final(db)@ == old(db)@,
            Some(l) => {
                &&& pending_list_at(final(db)@) == Some(
                    spec_swap_remove_list(l, slot_of(l, request_id@)),
                )
                &&& index_at(final(db)@) == Some(
                    spec_enum(spec_swap_remove_list(l, slot_of(l, request_id@))),
                )
                &&& !spec_pending_of(final(db)@).contains(request_id@)
                &&& forall|k: Seq<char>|
                    k != spec_pending_key() && k != spec_pending_index_key() ==> (
                    #[trigger] final(db)@.contains_key(k) == old(db)@.contains_key(k) && (old(
                        db,
                    )@.contains_key(k) ==> final(db)@[k] == old(db)@[k]))
            },
        },
{
    let pending_opt = pending_requests(db);
    let mut pending: Vec<String> = match pending_opt {
        Some(v) => v,
        None => {
            return Ok(());
        },
    };
    let ghost l = pending.deep_view();
    proof {
        lemma_decode_str_list_fits(old(db)@[spec_pending_key()]);
    }
    let n = pending.len();
    let mut slot: usize = 0;
    let mut j: usize = 0;
    let mut found = false;
    while j < n
        invariant
            n == l.len(),
            pending.deep_view() == l,
            j <= n,
            found ==> slot < j && l[slot as int] == request_id@,
            !found ==> forall|t: int| 0 <= t < j ==> l[t] != request_id@,
        decreases n - j,
    {
        if str_eq(pending[j].as_str(), request_id) {
            slot = j;
            found = true;
        }
        j = j + 1;
    }
    proof {
        if !found {
            assert(l.contains(request_id@));
            let w = choose|i: int| 0 <= i < l.len() && l[i] == request_id@;
            assert(false);
        }
        assert(l[slot_of(l, request_id@)] == request_id@) by {
            assert(l.contains(request_id@));
        }
        assert(slot_of(l, request_id@) == slot as int) by {
            let c = slot_of(l, request_id@);
            if c != slot as int {
                assert(l[c] == l[slot as int]);
            }
        }
    }
    let popped = match pending.pop() {
        Some(s) => s,
        None => {
            proof {
                assert(false);
            }
            String::new()
        },
    };
    if slot < pending.len() {
        pending.set(slot, popped);
    }
    let ghost new_list = spec_swap_remove_list(l, slot as int);
    proof {
        assert(pending.deep_view() =~= new_list);
    }
    let m = pending.len();
    let mut entries: Vec<(String, i128)> = Vec::new();
    let mut k: usize = 0;
    proof {
        assert(index_view(entries@) =~~= spec_enum(new_list).take(0));
    }
    while k < m
        invariant
            m == pending.deep_view().len(),
            pending.deep_view() == new_list,
            k <= m,
            index_view(entries@) == spec_enum(new_list).take(k as int),
        decreases m - k,
    {
        let ghost prior_entries = entries@;
        entries.push((pending[k].clone(), k as i128));
        proof {
            assert(prior_entries.len() == k) by {
                assert(index_view(prior_entries).len() == spec_enum(new_list).take(k as int).len());
            }
            assert(entries@ == prior_entries.push(entries@.last()));
            assert(entries@.last().0@ == new_list[k as int]);
            assert(entries@.last().1 == k as i128);
            assert forall|t: int| 0 <= t < k + 1 implies index_view(entries@)[t] == spec_enum(
                new_list,
            ).take(k + 1)[t] by {
                if t < k as int {
                    assert(entries@[t] == prior_entries[t]);
                    assert(index_view(prior_entries)[t] == spec_enum(new_list).take(k as int)[t]);
                } else {
                    assert(entries@[t].0@ == new_list[t]);
                    assert(entries@[t].1 == k as i128);
                }
            }
            assert(index_view(entries@) =~= spec_enum(new_list).take(k + 1));
        }
        k = k + 1;
    }
    proof {
        assert(spec_enum(new_list).take(m as int) =~= spec_enum(new_list));
        assert(index_view(entries@) == spec_enum(new_list));
        assert(str_seq_fits(new_list)) by {
            assert(forall|i: int|
                0 <= i < new_list.len() ==> #[trigger] new_list[i] == l.update(
                    slot as int,
                    l.last(),
                )[i]);
        }
    }
    let _ = update_pending_vector(db, pending);
    let _ = update_pending_hashmap(db, entries);
    proof {
        lemma_reserved_keys_distinct();
        lemma_str_list_round_trip(new_list);
        lemma_index_round_trip(spec_enum(new_list));
        assert(distinct_seq(new_list)) by {
            assert forall|a: int, b: int| 0 <= a < b < new_list.len() implies new_list[a]
                != new_list[b] by {
                assert(new_list[a] == if a == slot as int {
                    l[l.len() - 1]
                } else {
                    l[a]
                });
                assert(new_list[b] == if b == slot as int {
                    l[l.len() - 1]
                } else {
                    l[b]
                });
            }
        }
        assert(!new_list.contains(request_id@)) by {
            if new_list.contains(request_id@) {
                let w = choose|i: int| 0 <= i < new_list.len() && new_list[i] == request_id@;
                if w == slot as int {
                    assert(l[l.len() - 1] == request_id@);
                    assert(l[slot as int] == request_id@);
                } else {
                    assert(l[w] == request_id@);
                    assert(l[slot as int] == request_id@);
                }
            }
        }
    }
    Ok(())
}

/// Adding an id and then removing it returns the pending collections to
/// their prior state: the new id lands in the last slot, and swap-removing
/// the last slot just drops it, so list and index both revert.
pub proof fn lemma_add_remove_pending(l: Seq<Seq<char>>, id: Seq<char>)
    requires
        distinct_seq(l),
        !l.contains(id),
    ensures
        spec_swap_remove_list(l.push(id), slot_of(l.push(id), id)) == l,
        spec_enum(spec_swap_remove_list(l.push(id), slot_of(l.push(id), id))) == spec_enum(l),
{
    let lp = l.push(id);
    assert(lp[l.len() as int] == id);
    assert(lp.contains(id));
    let s = slot_of(lp, id);
    assert(0 <= s < lp.len() && lp[s] == id);
    if s != l.len() as int {
        assert(l[s] == id);
        assert(l.contains(id));
        assert(false);
    }
    assert(spec_swap_remove_list(lp, l.len() as int) =~= l);
}

} // verus!
