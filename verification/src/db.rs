//! The key-value store at the bottom of the relayer: a byte-keyed map with
//! atomic single-key put and get.
//!
//! The store is modeled as an append-only log of writes where the last write
//! to a key wins, viewed as a map from key to value bytes.  A deployment may
//! back it with any embedded store that provides the same single-key
//! semantics; which one is an external concern.

use vstd::prelude::*;

use crate::errors::DbError;
use crate::text::str_eq;

verus! {

/// Key of the ordered list of in-flight request ids.
pub open spec fn spec_pending_key() -> Seq<char> {
    "pending_requests"@
}

/// Key of the id -> slot index over the pending list.
pub open spec fn spec_pending_index_key() -> Seq<char> {
    "pending_requests_index"@
}

/// Key of the append-only list of finalized request ids.
pub open spec fn spec_completed_key() -> Seq<char> {
    "completed_requests"@
}

pub fn pending_key() -> (r: &'static str)
    ensures
        r@ == spec_pending_key(),
{
    "pending_requests"
}

pub fn pending_index_key() -> (r: &'static str)
    ensures
        r@ == spec_pending_index_key(),
{
    "pending_requests_index"
}

pub fn completed_key() -> (r: &'static str)
    ensures
        r@ == spec_completed_key(),
{
    "completed_requests"
}

/// The three reserved keys are pairwise distinct; every other key names a
/// request record.
pub proof fn lemma_reserved_keys_distinct()
    ensures
        spec_pending_key() != spec_pending_index_key(),
        spec_pending_key() != spec_completed_key(),
        spec_pending_index_key() != spec_completed_key(),
{
    reveal_strlit("pending_requests");
    reveal_strlit("pending_requests_index");
    reveal_strlit("completed_requests");
    assert(spec_pending_key().len() == 16);
    assert(spec_pending_index_key().len() == 22);
    assert(spec_completed_key().len() == 18);
}

/// Durable byte->byte map with single-key put/get.
pub struct Database {
    log: Vec<(String, Vec<u8>)>,
}

/// The map a write log denotes: later writes shadow earlier ones.
pub open spec fn log_map(s: Seq<(String, Vec<u8>)>) -> Map<Seq<char>, Seq<u8>>
    decreases s.len(),
{
    if s.len() == 0 {
        Map::empty()
    } else {
        log_map(s.drop_last()).insert(s.last().0@, s.last().1@)
    }
}

impl View for Database {
    type V = Map<Seq<char>, Seq<u8>>;

    closed spec fn view(&self) -> Map<Seq<char>, Seq<u8>> {
        log_map(self.log@)
    }
}

/// A key is in the log's map exactly when some log entry bears it.
proof fn lemma_log_map_contains(s: Seq<(String, Vec<u8>)>, k: Seq<char>)
    ensures
        log_map(s).contains_key(k) <==> exists|j: int| 0 <= j < s.len() && s[j].0@ == k,
    decreases s.len(),
{
    if s.len() > 0 {
        lemma_log_map_contains(s.drop_last(), k);
        if log_map(s).contains_key(k) && s.last().0@ != k {
            let j = choose|j: int| 0 <= j < s.len() - 1 && s.drop_last()[j].0@ == k;
            assert(s[j].0@ == k);
        }
        if exists|j: int| 0 <= j < s.len() && s[j].0@ == k {
            let j = choose|j: int| 0 <= j < s.len() && s[j].0@ == k;
            if j < s.len() - 1 {
                assert(s.drop_last()[j].0@ == k);
            }
        }
    }
}

/// The value of a key is the one of the last log entry bearing it.
proof fn lemma_log_map_value(s: Seq<(String, Vec<u8>)>, i: int)
    requires
        0 <= i < s.len(),
        forall|j: int| i < j < s.len() ==> s[j].0@ != s[i].0@,
    ensures
        log_map(s).contains_key(s[i].0@),
        log_map(s)[s[i].0@] == s[i].1@,
    decreases s.len(),
{
    if i == s.len() - 1 {
    } else {
        assert(s.drop_last()[i] == s[i]);
        lemma_log_map_value(s.drop_last(), i);
    }
}

impl Database {
    /// Open a fresh store.
    pub fn open() -> (r: Result<Database, DbError>)
        ensures
            r matches Ok(db) && db@ == Map::<Seq<char>, Seq<u8>>::empty(),
    {
        Ok(Database { log: Vec::new() })
    }

    /// Atomically bind `key` to `value`.
    pub fn write_value(&mut self, key: &str, value: Vec<u8>) -> (r: Result<(), DbError>)
        ensures
            r is Ok,
            final(self)@ == old(self)@.insert(key@, value@),
    {
        let owned: String = key.to_owned();
        self.log.push((owned, value));
        proof {
            assert(self.log@.drop_last() =~= old(self).log@);
        }
        Ok(())
    }

    /// The bytes last bound to `key`, if any.
    pub fn read(&self, key: &str) -> (r: Result<Option<Vec<u8>>, DbError>)
        ensures
            r matches Ok(v),
            match r {
                Ok(Some(v)) => self@.contains_key(key@) && v@ == self@[key@],
                Ok(None) => !self@.contains_key(key@),
                Err(_) => false,
            },
    {
        let mut i: usize = self.log.len();
        while i > 0
            invariant
                i <= self.log@.len(),
                forall|j: int| i <= j < self.log@.len() ==> self.log@[j].0@ != key@,
            decreases i,
        {
            i = i - 1;
            let entry = &self.log[i];
            if str_eq(entry.0.as_str(), key) {
                let value = entry.1.clone();
                proof {
                    lemma_log_map_value(self.log@, i as int);
                }
                return Ok(Some(value));
            }
        }
        proof {
            lemma_log_map_contains(self.log@, key@);
        }
        Ok(None)
    }
}

} // verus!
