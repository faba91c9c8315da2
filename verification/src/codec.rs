//! Self-describing byte codec for everything the store holds: request
//! records, the pending and completed id lists, and the pending index.
//!
//! Every entity has a specification-level encoder, a specification-level
//! decoder, executable counterparts proved against them, and a round-trip
//! law: decoding an encoding yields the value back.

use vstd::bytes::{
    lemma_auto_spec_u128_to_from_le_bytes, lemma_auto_spec_u32_to_from_le_bytes,
    lemma_auto_spec_u64_to_from_le_bytes, spec_u128_from_le_bytes, spec_u128_to_le_bytes,
    spec_u32_from_le_bytes, spec_u32_to_le_bytes, spec_u64_from_le_bytes, spec_u64_to_le_bytes,
    u128_from_le_bytes, u128_to_le_bytes, u32_from_le_bytes, u32_to_le_bytes, u64_from_le_bytes,
    u64_to_le_bytes,
};
use vstd::prelude::*;
use vstd::slice::slice_subrange;
use vstd::utf8::{char_is_scalar, char_u32_cast, is_scalar};

use crate::text::{char_from_u32, chars_string, str_chars};
use crate::types::{
    BRequest, BRequestView, Chains, InputRequest, InputRequestView, OutputResult,
    OutputResultView, Status, Timestamp,
};

verus! {

// ---------------------------------------------------------------------------
// Size bounds under which an encoding is faithful.  Executable values always
// satisfy them: a string or vector never holds more than usize::MAX items.
// ---------------------------------------------------------------------------

pub open spec fn str_fits(s: Seq<char>) -> bool {
    s.len() <= u64::MAX
}

pub open spec fn str_seq_fits(v: Seq<Seq<char>>) -> bool {
    &&& v.len() <= u64::MAX
    &&& forall|i: int| 0 <= i < v.len() ==> str_fits(#[trigger] v[i])
}

pub open spec fn index_entries_fit(v: Seq<(Seq<char>, i128)>) -> bool {
    &&& v.len() <= u64::MAX
    &&& forall|i: int| 0 <= i < v.len() ==> str_fits(#[trigger] v[i].0)
}

pub open spec fn input_fits(i: InputRequestView) -> bool {
    &&& str_fits(i.contract_or_mint)
    &&& str_fits(i.token_id)
    &&& str_fits(i.token_owner)
    &&& str_fits(i.destination_account)
}

pub open spec fn output_fits(o: OutputResultView) -> bool {
    &&& str_fits(o.detination_token_id_or_account)
    &&& str_fits(o.detination_contract_id_or_mint)
}

pub open spec fn brequest_fits(r: BRequestView) -> bool {
    &&& str_fits(r.id)
    &&& input_fits(r.input)
    &&& str_seq_fits(r.tx_hashes)
    &&& output_fits(r.output)
}

// ---------------------------------------------------------------------------
// Specification encoders.
// ---------------------------------------------------------------------------

pub open spec fn spec_enc_u64(x: u64) -> Seq<u8> {
    spec_u64_to_le_bytes(x)
}

pub open spec fn spec_enc_u32(x: u32) -> Seq<u8> {
    spec_u32_to_le_bytes(x)
}

pub open spec fn spec_enc_i128(x: i128) -> Seq<u8> {
    spec_u128_to_le_bytes(x as u128)
}

pub open spec fn spec_enc_chars(s: Seq<char>) -> Seq<u8>
    decreases s.len(),
{
    if s.len() == 0 {
        Seq::empty()
    } else {
        spec_enc_u32(s[0] as u32) + spec_enc_chars(s.drop_first())
    }
}

pub open spec fn spec_enc_str(s: Seq<char>) -> Seq<u8> {
    spec_enc_u64(s.len() as u64) + spec_enc_chars(s)
}

pub open spec fn spec_status_tag(s: Status) -> u8 {
    match s {
        Status::RequestReceived => 0,
        Status::TokenReceived => 1,
        Status::TokenMinted => 2,
        Status::Completed => 3,
        Status::Canceled => 4,
    }
}

pub open spec fn spec_enc_status(s: Status) -> Seq<u8> {
    seq![spec_status_tag(s)]
}

pub open spec fn spec_chains_tag(c: Chains) -> u8 {
    match c {
        Chains::EVM => 0,
        Chains::SOLANA => 1,
    }
}

pub open spec fn spec_enc_chains(c: Chains) -> Seq<u8> {
    seq![spec_chains_tag(c)]
}

pub open spec fn spec_enc_timestamp(t: Timestamp) -> Seq<u8> {
    spec_enc_u64(t.secs) + spec_enc_u32(t.nanos)
}

pub open spec fn spec_enc_output(o: OutputResultView) -> Seq<u8> {
    spec_enc_str(o.detination_token_id_or_account) + spec_enc_str(o.detination_contract_id_or_mint)
}

pub open spec fn spec_enc_input(i: InputRequestView) -> Seq<u8> {
    spec_enc_str(i.contract_or_mint) + spec_enc_str(i.token_id) + spec_enc_str(i.token_owner)
        + spec_enc_chains(i.origin_network) + spec_enc_str(i.destination_account)
}

pub open spec fn spec_enc_str_seq(v: Seq<Seq<char>>) -> Seq<u8>
    decreases v.len(),
{
    if v.len() == 0 {
        Seq::empty()
    } else {
        spec_enc_str(v[0]) + spec_enc_str_seq(v.drop_first())
    }
}

pub open spec fn spec_enc_str_list(v: Seq<Seq<char>>) -> Seq<u8> {
    spec_enc_u64(v.len() as u64) + spec_enc_str_seq(v)
}

pub open spec fn spec_enc_index_entries(v: Seq<(Seq<char>, i128)>) -> Seq<u8>
    decreases v.len(),
{
    if v.len() == 0 {
        Seq::empty()
    } else {
        spec_enc_str(v[0].0) + spec_enc_i128(v[0].1) + spec_enc_index_entries(v.drop_first())
    }
}

pub open spec fn spec_enc_index(v: Seq<(Seq<char>, i128)>) -> Seq<u8> {
    spec_enc_u64(v.len() as u64) + spec_enc_index_entries(v)
}

pub open spec fn spec_enc_brequest(r: BRequestView) -> Seq<u8> {
    spec_enc_str(r.id) + spec_enc_status(r.status) + spec_enc_input(r.input)
        + spec_enc_str_list(r.tx_hashes) + spec_enc_output(r.output)
        + spec_enc_timestamp(r.last_update)
}

// ---------------------------------------------------------------------------
// Specification decoders.  Each returns the decoded value and how many bytes
// it consumed, or nothing when the input does not start with an encoding.
// ---------------------------------------------------------------------------

pub open spec fn spec_dec_u64(b: Seq<u8>) -> Option<(u64, int)> {
    if b.len() >= 8 {
        Some((spec_u64_from_le_bytes(b.subrange(0, 8)), 8))
    } else {
        None
    }
}

pub open spec fn spec_dec_u32(b: Seq<u8>) -> Option<(u32, int)> {
    if b.len() >= 4 {
        Some((spec_u32_from_le_bytes(b.subrange(0, 4)), 4))
    } else {
        None
    }
}

pub open spec fn spec_dec_i128(b: Seq<u8>) -> Option<(i128, int)> {
    if b.len() >= 16 {
        Some((spec_u128_from_le_bytes(b.subrange(0, 16)) as i128, 16))
    } else {
        None
    }
}

pub open spec fn spec_dec_char(b: Seq<u8>) -> Option<(char, int)> {
    match spec_dec_u32(b) {
        Some((u, m)) => if is_scalar(u) {
            Some((u as char, m))
        } else {
            None
        },
        None => None,
    }
}

pub open spec fn spec_dec_chars(b: Seq<u8>, n: nat) -> Option<(Seq<char>, int)>
    decreases n,
{
    if n == 0 {
        Some((Seq::empty(), 0))
    } else {
        match spec_dec_char(b) {
            Some((c, m)) => match spec_dec_chars(b.skip(m), (n - 1) as nat) {
                Some((s, m2)) => Some((seq![c] + s, m + m2)),
                None => None,
            },
            None => None,
        }
    }
}

pub open spec fn spec_dec_str(b: Seq<u8>) -> Option<(Seq<char>, int)> {
    match spec_dec_u64(b) {
        Some((n, m1)) => match spec_dec_chars(b.skip(m1), n as nat) {
            Some((s, m2)) => Some((s, m1 + m2)),
            None => None,
        },
        None => None,
    }
}

pub open spec fn spec_dec_status(b: Seq<u8>) -> Option<(Status, int)> {
    if b.len() >= 1 {
        if b[0] == 0 {
            Some((Status::RequestReceived, 1))
        } else if b[0] == 1 {
            Some((Status::TokenReceived, 1))
        } else if b[0] == 2 {
            Some((Status::TokenMinted, 1))
        } else if b[0] == 3 {
            Some((Status::Completed, 1))
        } else if b[0] == 4 {
            Some((Status::Canceled, 1))
        } else {
            None
        }
    } else {
        None
    }
}

pub open spec fn spec_dec_chains(b: Seq<u8>) -> Option<(Chains, int)> {
    if b.len() >= 1 {
        if b[0] == 0 {
            Some((Chains::EVM, 1))
        } else if b[0] == 1 {
            Some((Chains::SOLANA, 1))
        } else {
            None
        }
    } else {
        None
    }
}

pub open spec fn spec_dec_timestamp(b: Seq<u8>) -> Option<(Timestamp, int)> {
    match spec_dec_u64(b) {
        Some((secs, m1)) => match spec_dec_u32(b.skip(m1)) {
            Some((nanos, m2)) => Some((Timestamp { secs, nanos }, m1 + m2)),
            None => None,
        },
        None => None,
    }
}

pub open spec fn spec_dec_output(b: Seq<u8>) -> Option<(OutputResultView, int)> {
    match spec_dec_str(b) {
        Some((acct, m1)) => match spec_dec_str(b.skip(m1)) {
            Some((mint, m2)) => Some(
                (
                    OutputResultView {
                        detination_token_id_or_account: acct,
                        detination_contract_id_or_mint: mint,
                    },
                    m1 + m2,
                ),
            ),
            None => None,
        },
        None => None,
    }
}

pub open spec fn spec_dec_input(b: Seq<u8>) -> Option<(InputRequestView, int)> {
    match spec_dec_str(b) {
        Some((contract, m1)) => match spec_dec_str(b.skip(m1)) {
            Some((token_id, m2)) => match spec_dec_str(b.skip(m1 + m2)) {
                Some((owner, m3)) => match spec_dec_chains(b.skip(m1 + m2 + m3)) {
                    Some((net, m4)) => match spec_dec_str(b.skip(m1 + m2 + m3 + m4)) {
                        Some((dest, m5)) => Some(
                            (
                                InputRequestView {
                                    contract_or_mint: contract,
                                    token_id: token_id,
                                    token_owner: owner,
                                    origin_network: net,
                                    destination_account: dest,
                                },
                                m1 + m2 + m3 + m4 + m5,
                            ),
                        ),
                        None => None,
                    },
                    None => None,
                },
                None => None,
            },
            None => None,
        },
        None => None,
    }
}

pub open spec fn spec_dec_str_seq(b: Seq<u8>, n: nat) -> Option<(Seq<Seq<char>>, int)>
    decreases n,
{
    if n == 0 {
        Some((Seq::empty(), 0))
    } else {
        match spec_dec_str(b) {
            Some((s, m)) => match spec_dec_str_seq(b.skip(m), (n - 1) as nat) {
                Some((v, m2)) => Some((seq![s] + v, m + m2)),
                None => None,
            },
            None => None,
        }
    }
}

pub open spec fn spec_dec_str_list(b: Seq<u8>) -> Option<(Seq<Seq<char>>, int)> {
    match spec_dec_u64(b) {
        Some((n, m1)) => match spec_dec_str_seq(b.skip(m1), n as nat) {
            Some((v, m2)) => Some((v, m1 + m2)),
            None => None,
        },
        None => None,
    }
}

pub open spec fn spec_dec_index_entries(b: Seq<u8>, n: nat) -> Option<(Seq<(Seq<char>, i128)>, int)>
    decreases n,
{
    if n == 0 {
        Some((Seq::empty(), 0))
    } else {
        match spec_dec_str(b) {
            Some((k, m1)) => match spec_dec_i128(b.skip(m1)) {
                Some((x, m2)) => match spec_dec_index_entries(b.skip(m1 + m2), (n - 1) as nat) {
                    Some((v, m3)) => Some((seq![(k, x)] + v, m1 + m2 + m3)),
                    None => None,
                },
                None => None,
            },
            None => None,
        }
    }
}

pub open spec fn spec_dec_index(b: Seq<u8>) -> Option<(Seq<(Seq<char>, i128)>, int)> {
    match spec_dec_u64(b) {
        Some((n, m1)) => match spec_dec_index_entries(b.skip(m1), n as nat) {
            Some((v, m2)) => Some((v, m1 + m2)),
            None => None,
        },
        None => None,
    }
}

pub open spec fn spec_dec_brequest(b: Seq<u8>) -> Option<(BRequestView, int)> {
    match spec_dec_str(b) {
        Some((id, m1)) => match spec_dec_status(b.skip(m1)) {
            Some((status, m2)) => match spec_dec_input(b.skip(m1 + m2)) {
                Some((input, m3)) => match spec_dec_str_list(b.skip(m1 + m2 + m3)) {
                    Some((txs, m4)) => match spec_dec_output(b.skip(m1 + m2 + m3 + m4)) {
                        Some((output, m5)) => match spec_dec_timestamp(
                            b.skip(m1 + m2 + m3 + m4 + m5),
                        ) {
                            Some((ts, m6)) => Some(
                                (
                                    BRequestView {
                                        id: id,
                                        status: status,
                                        input: input,
                                        tx_hashes: txs,
                                        output: output,
                                        last_update: ts,
                                    },
                                    m1 + m2 + m3 + m4 + m5 + m6,
                                ),
                            ),
                            None => None,
                        },
                        None => None,
                    },
                    None => None,
                },
                None => None,
            },
            None => None,
        },
        None => None,
    }
}

/// A stored value decodes as an entity only when the encoding spans it whole.
pub open spec fn spec_decode_request(b: Seq<u8>) -> Option<BRequestView> {
    match spec_dec_brequest(b) {
        Some((v, m)) => if m == b.len() {
            Some(v)
        } else {
            None
        },
        None => None,
    }
}

pub open spec fn spec_decode_str_list(b: Seq<u8>) -> Option<Seq<Seq<char>>> {
    match spec_dec_str_list(b) {
        Some((v, m)) => if m == b.len() {
            Some(v)
        } else {
            None
        },
        None => None,
    }
}

pub open spec fn spec_decode_index(b: Seq<u8>) -> Option<Seq<(Seq<char>, i128)>> {
    match spec_dec_index(b) {
        Some((v, m)) => if m == b.len() {
            Some(v)
        } else {
            None
        },
        None => None,
    }
}

// ---------------------------------------------------------------------------
// Executable encoders.
// ---------------------------------------------------------------------------

/// Appending a character extends a character-sequence encoding at its end.
proof fn lemma_enc_chars_snoc(s: Seq<char>, c: char)
    ensures
        spec_enc_chars(s.push(c)) == spec_enc_chars(s) + spec_enc_u32(c as u32),
    decreases s.len(),
{
    if s.len() == 0 {
        assert(s.push(c).drop_first() =~= Seq::<char>::empty());
        assert(spec_enc_chars(Seq::<char>::empty()) =~= Seq::<u8>::empty());
        assert(spec_enc_chars(s.push(c)) =~= spec_enc_u32(c as u32));
        assert(spec_enc_chars(s) + spec_enc_u32(c as u32) =~= spec_enc_u32(c as u32));
    } else {
        assert(s.push(c).drop_first() =~= s.drop_first().push(c));
        lemma_enc_chars_snoc(s.drop_first(), c);
        assert(spec_enc_chars(s.push(c)) =~= spec_enc_chars(s) + spec_enc_u32(c as u32));
    }
}

/// Appending a string extends a string-sequence encoding at its end.
proof fn lemma_enc_str_seq_snoc(v: Seq<Seq<char>>, s: Seq<char>)
    ensures
        spec_enc_str_seq(v.push(s)) == spec_enc_str_seq(v) + spec_enc_str(s),
    decreases v.len(),
{
    if v.len() == 0 {
        assert(v.push(s).drop_first() =~= Seq::<Seq<char>>::empty());
        assert(spec_enc_str_seq(Seq::<Seq<char>>::empty()) =~= Seq::<u8>::empty());
        assert(spec_enc_str_seq(v.push(s)) =~= spec_enc_str(s));
        assert(spec_enc_str_seq(v) + spec_enc_str(s) =~= spec_enc_str(s));
    } else {
        assert(v.push(s).drop_first() =~= v.drop_first().push(s));
        lemma_enc_str_seq_snoc(v.drop_first(), s);
        assert(spec_enc_str_seq(v.push(s)) =~= spec_enc_str_seq(v) + spec_enc_str(s));
    }
}

/// Appending an entry extends an index encoding at its end.
proof fn lemma_enc_index_entries_snoc(v: Seq<(Seq<char>, i128)>, e: (Seq<char>, i128))
    ensures
        spec_enc_index_entries(v.push(e)) == spec_enc_index_entries(v) + spec_enc_str(e.0)
            + spec_enc_i128(e.1),
    decreases v.len(),
{
    if v.len() == 0 {
        assert(v.push(e).drop_first() =~= Seq::<(Seq<char>, i128)>::empty());
        assert(spec_enc_index_entries(Seq::<(Seq<char>, i128)>::empty()) =~= Seq::<u8>::empty());
        assert(spec_enc_index_entries(v.push(e)) =~= spec_enc_str(e.0) + spec_enc_i128(e.1));
        assert(spec_enc_index_entries(v) + spec_enc_str(e.0) + spec_enc_i128(e.1) =~= spec_enc_str(
            e.0,
        ) + spec_enc_i128(e.1));
    } else {
        assert(v.push(e).drop_first() =~= v.drop_first().push(e));
        lemma_enc_index_entries_snoc(v.drop_first(), e);
        assert(spec_enc_index_entries(v.push(e)) =~= spec_enc_index_entries(v) + spec_enc_str(e.0)
            + spec_enc_i128(e.1));
    }
}

/// Encode a string: its character count, then each character as a 32-bit
/// scalar, all little-endian.
pub fn encode_str(s: &str) -> (r: Vec<u8>)
    ensures
        r@ == spec_enc_str(s@),
        str_fits(s@),
{
    let cs = str_chars(s);
    let n = cs.len();
    let mut out = u64_to_le_bytes(n as u64);
    let mut i: usize = 0;
    while i < n
        invariant
            cs@ == s@,
            n == cs@.len(),
            i <= n,
            out@ == spec_enc_u64(s@.len() as u64) + spec_enc_chars(s@.take(i as int)),
        decreases n - i,
    {
        let mut piece = u32_to_le_bytes(cs[i] as u32);
        out.append(&mut piece);
        proof {
            lemma_enc_chars_snoc(s@.take(i as int), s@[i as int]);
            assert(s@.take(i + 1) =~= s@.take(i as int).push(s@[i as int]));
        }
        i = i + 1;
    }
    proof {
        assert(s@.take(n as int) =~= s@);
    }
    out
}

/// Encode a status as its one-byte tag.
pub fn encode_status(s: &Status) -> (r: Vec<u8>)
    ensures
        r@ == spec_enc_status(*s),
{
    let tag: u8 = match s {
        Status::RequestReceived => 0,
        Status::TokenReceived => 1,
        Status::TokenMinted => 2,
        Status::Completed => 3,
        Status::Canceled => 4,
    };
    let mut out = Vec::new();
    out.push(tag);
    proof {
        assert(out@ =~= spec_enc_status(*s));
    }
    out
}

/// Encode a chain as its one-byte tag.
pub fn encode_chains(c: &Chains) -> (r: Vec<u8>)
    ensures
        r@ == spec_enc_chains(*c),
{
    let tag: u8 = match c {
        Chains::EVM => 0,
        Chains::SOLANA => 1,
    };
    let mut out = Vec::new();
    out.push(tag);
    proof {
        assert(out@ =~= spec_enc_chains(*c));
    }
    out
}

/// Encode a timestamp as seconds and nanoseconds.
pub fn encode_timestamp(t: &Timestamp) -> (r: Vec<u8>)
    ensures
        r@ == spec_enc_timestamp(*t),
{
    let mut out = u64_to_le_bytes(t.secs);
    let mut nanos = u32_to_le_bytes(t.nanos);
    out.append(&mut nanos);
    out
}

/// Encode the destination-side output record.
pub fn encode_output(o: &OutputResult) -> (r: Vec<u8>)
    ensures
        r@ == spec_enc_output(o@),
        output_fits(o@),
{
    let mut out = encode_str(o.detination_token_id_or_account.as_str());
    let mut rest = encode_str(o.detination_contract_id_or_mint.as_str());
    out.append(&mut rest);
    out
}

/// Encode the immutable input of a request.
pub fn encode_input(i: &InputRequest) -> (r: Vec<u8>)
    ensures
        r@ == spec_enc_input(i@),
        input_fits(i@),
{
    let mut out = encode_str(i.contract_or_mint.as_str());
    let mut p2 = encode_str(i.token_id.as_str());
    let mut p3 = encode_str(i.token_owner.as_str());
    let mut p4 = encode_chains(&i.origin_network);
    let mut p5 = encode_str(i.destination_account.as_str());
    out.append(&mut p2);
    out.append(&mut p3);
    out.append(&mut p4);
    out.append(&mut p5);
    out
}

/// Encode a list of strings: its length, then each string in order.
pub fn encode_str_list(v: &Vec<String>) -> (r: Vec<u8>)
    ensures
        r@ == spec_enc_str_list(v.deep_view()),
        str_seq_fits(v.deep_view()),
{
    let n = v.len();
    let mut out = u64_to_le_bytes(n as u64);
    proof {
        assert(v.deep_view().len() == n);
    }
    let mut i: usize = 0;
    while i < n
        invariant
            n == v@.len(),
            v.deep_view().len() == n,
            i <= n,
            forall|j: int| 0 <= j < n ==> v.deep_view()[j] == v@[j]@,
            forall|j: int| 0 <= j < i ==> str_fits(#[trigger] v.deep_view()[j]),
            out@ == spec_enc_u64(n as u64) + spec_enc_str_seq(v.deep_view().take(i as int)),
        decreases n - i,
    {
        let mut piece = encode_str(v[i].as_str());
        out.append(&mut piece);
        proof {
            lemma_enc_str_seq_snoc(v.deep_view().take(i as int), v.deep_view()[i as int]);
            assert(v.deep_view().take(i + 1) =~= v.deep_view().take(i as int).push(
                v.deep_view()[i as int],
            ));
        }
        i = i + 1;
    }
    proof {
        assert(v.deep_view().take(n as int) =~= v.deep_view());
    }
    out
}

/// Encode the pending index as a sequence of (id, slot) entries.
pub fn encode_index(v: &Vec<(String, i128)>) -> (r: Vec<u8>)
    ensures
        r@ == spec_enc_index(index_view(v@)),
{
    let n = v.len();
    let mut out = u64_to_le_bytes(n as u64);
    let mut i: usize = 0;
    while i < n
        invariant
            n == v@.len(),
            i <= n,
            out@ == spec_enc_u64(n as u64) + spec_enc_index_entries(index_view(v@).take(i as int)),
        decreases n - i,
    {
        let mut key = encode_str(v[i].0.as_str());
        let mut value = u128_to_le_bytes(v[i].1 as u128);
        out.append(&mut key);
        out.append(&mut value);
        proof {
            lemma_enc_index_entries_snoc(
                index_view(v@).take(i as int),
                index_view(v@)[i as int],
            );
            assert(index_view(v@).take(i + 1) =~= index_view(v@).take(i as int).push(
                index_view(v@)[i as int],
            ));
        }
        i = i + 1;
    }
    proof {
        assert(index_view(v@).take(n as int) =~= index_view(v@));
    }
    out
}

/// The entry sequence an index vector denotes.
pub open spec fn index_view(v: Seq<(String, i128)>) -> Seq<(Seq<char>, i128)> {
    v.map_values(|e: (String, i128)| (e.0@, e.1))
}

// ---------------------------------------------------------------------------
// Executable decoders.  Each one reads at an absolute position and agrees
// with its specification decoder applied to the bytes from that position on.
// ---------------------------------------------------------------------------

/// How an executable reader must relate to its specification decoder.
pub open spec fn dec_ok<T>(sd: Option<(T, int)>, r: Option<(T, usize)>, pos: int, len: int) -> bool {
    match sd {
        Some((v, m)) => r matches Some(p) && p.0 == v && p.1 == pos + m && pos + m <= len,
        None => r is None,
    }
}

/// Every specification decoder consumes no more than it is given.
proof fn lemma_dec_chars_len(b: Seq<u8>, n: nat)
    ensures
        spec_dec_chars(b, n) matches Some((s, m)) ==> s.len() == n && m == 4 * n && m <= b.len(),
    decreases n,
{
    if n > 0 {
        match spec_dec_char(b) {
            Some((c, m)) => {
                lemma_dec_chars_len(b.skip(m), (n - 1) as nat);
            },
            None => {},
        }
    }
}

proof fn lemma_dec_str_len(b: Seq<u8>)
    ensures
        spec_dec_str(b) matches Some((s, m)) ==> 8 <= m <= b.len(),
{
    match spec_dec_u64(b) {
        Some((n, m1)) => {
            lemma_dec_chars_len(b.skip(8), n as nat);
        },
        None => {},
    }
}

proof fn lemma_dec_str_seq_len(b: Seq<u8>, n: nat)
    ensures
        spec_dec_str_seq(b, n) matches Some((v, m)) ==> 0 <= m <= b.len() && v.len() == n,
    decreases n,
{
    if n > 0 {
        match spec_dec_str(b) {
            Some((s, m1)) => {
                lemma_dec_str_len(b);
                lemma_dec_str_seq_len(b.skip(m1), (n - 1) as nat);
            },
            None => {},
        }
    }
}

proof fn lemma_dec_str_len_fits(b: Seq<u8>)
    ensures
        spec_dec_str(b) matches Some((s, m)) ==> str_fits(s),
{
    match spec_dec_u64(b) {
        Some((n, m1)) => {
            lemma_dec_chars_len(b.skip(8), n as nat);
        },
        None => {},
    }
}

proof fn lemma_dec_str_seq_fits(b: Seq<u8>, n: nat)
    ensures
        spec_dec_str_seq(b, n) matches Some((v, m)) ==> forall|i: int|
            0 <= i < v.len() ==> str_fits(#[trigger] v[i]),
    decreases n,
{
    if n > 0 {
        match spec_dec_str(b) {
            Some((s, m1)) => {
                lemma_dec_str_len_fits(b);
                lemma_dec_str_seq_fits(b.skip(m1), (n - 1) as nat);
            },
            None => {},
        }
    }
}

/// Whatever bytes decode as an id list, the decoded list could be encoded
/// again: its sizes fit the length prefixes.
pub proof fn lemma_decode_str_list_fits(b: Seq<u8>)
    ensures
        spec_decode_str_list(b) matches Some(v) ==> str_seq_fits(v),
{
    match spec_dec_u64(b) {
        Some((n, m1)) => {
            lemma_dec_str_seq_len(b.skip(8), n as nat);
            lemma_dec_str_seq_fits(b.skip(8), n as nat);
        },
        None => {},
    }
}

proof fn lemma_dec_str_list_len(b: Seq<u8>)
    ensures
        spec_dec_str_list(b) matches Some((v, m)) ==> 0 <= m <= b.len(),
{
    match spec_dec_u64(b) {
        Some((n, m1)) => {
            lemma_dec_str_seq_len(b.skip(8), n as nat);
        },
        None => {},
    }
}

proof fn lemma_dec_output_len(b: Seq<u8>)
    ensures
        spec_dec_output(b) matches Some((o, m)) ==> 0 <= m <= b.len(),
{
    match spec_dec_str(b) {
        Some((acct, m1)) => {
            lemma_dec_str_len(b);
            lemma_dec_str_len(b.skip(m1));
        },
        None => {},
    }
}

proof fn lemma_dec_input_len(b: Seq<u8>)
    ensures
        spec_dec_input(b) matches Some((i, m)) ==> 0 <= m <= b.len(),
{
    match spec_dec_str(b) {
        Some((contract, m1)) => {
            lemma_dec_str_len(b);
            match spec_dec_str(b.skip(m1)) {
                Some((token_id, m2)) => {
                    lemma_dec_str_len(b.skip(m1));
                    match spec_dec_str(b.skip(m1 + m2)) {
                        Some((owner, m3)) => {
                            lemma_dec_str_len(b.skip(m1 + m2));
                            match spec_dec_chains(b.skip(m1 + m2 + m3)) {
                                Some((net, m4)) => {
                                    lemma_dec_str_len(b.skip(m1 + m2 + m3 + m4));
                                },
                                None => {},
                            }
                        },
                        None => {},
                    }
                },
                None => {},
            }
        },
        None => {},
    }
}

proof fn lemma_dec_index_entries_len(b: Seq<u8>, n: nat)
    ensures
        spec_dec_index_entries(b, n) matches Some((v, m)) ==> 0 <= m <= b.len() && v.len() == n,
    decreases n,
{
    if n > 0 {
        match spec_dec_str(b) {
            Some((k, m1)) => {
                lemma_dec_str_len(b);
                match spec_dec_i128(b.skip(m1)) {
                    Some((x, m2)) => {
                        lemma_dec_index_entries_len(b.skip(m1 + m2), (n - 1) as nat);
                    },
                    None => {},
                }
            },
            None => {},
        }
    }
}

fn read_u64(b: &Vec<u8>, pos: usize) -> (r: Option<(u64, usize)>)
    requires
        pos <= b@.len(),
    ensures
        dec_ok(spec_dec_u64(b@.skip(pos as int)), r, pos as int, b@.len() as int),
{
    if b.len() - pos >= 8 {
        let s = slice_subrange(b.as_slice(), pos, pos + 8);
        let x = u64_from_le_bytes(s);
        proof {
            assert(b@.skip(pos as int).subrange(0, 8) =~= b@.subrange(pos as int, pos as int + 8));
        }
        Some((x, pos + 8))
    } else {
        None
    }
}

fn read_u32(b: &Vec<u8>, pos: usize) -> (r: Option<(u32, usize)>)
    requires
        pos <= b@.len(),
    ensures
        dec_ok(spec_dec_u32(b@.skip(pos as int)), r, pos as int, b@.len() as int),
{
    if b.len() - pos >= 4 {
        let s = slice_subrange(b.as_slice(), pos, pos + 4);
        let x = u32_from_le_bytes(s);
        proof {
            assert(b@.skip(pos as int).subrange(0, 4) =~= b@.subrange(pos as int, pos as int + 4));
        }
        Some((x, pos + 4))
    } else {
        None
    }
}

fn read_i128(b: &Vec<u8>, pos: usize) -> (r: Option<(i128, usize)>)
    requires
        pos <= b@.len(),
    ensures
        dec_ok(spec_dec_i128(b@.skip(pos as int)), r, pos as int, b@.len() as int),
{
    if b.len() - pos >= 16 {
        let s = slice_subrange(b.as_slice(), pos, pos + 16);
        let u = u128_from_le_bytes(s);
        proof {
            assert(b@.skip(pos as int).subrange(0, 16) =~= b@.subrange(
                pos as int,
                pos as int + 16,
            ));
        }
        Some((#[verifier::truncate] (u as i128), pos + 16))
    } else {
        None
    }
}

fn read_char(b: &Vec<u8>, pos: usize) -> (r: Option<(char, usize)>)
    requires
        pos <= b@.len(),
    ensures
        dec_ok(spec_dec_char(b@.skip(pos as int)), r, pos as int, b@.len() as int),
{
    match read_u32(b, pos) {
        Some((u, p)) => match char_from_u32(u) {
            Some(c) => Some((c, p)),
            None => None,
        },
        None => None,
    }
}

#[verifier::loop_isolation(false)]
fn read_string(b: &Vec<u8>, pos: usize) -> (r: Option<(String, usize)>)
    requires
        pos <= b@.len(),
    ensures
        match spec_dec_str(b@.skip(pos as int)) {
            Some((s, m)) => r matches Some(p) && p.0@ == s && p.1 == pos + m && pos + m
                <= b@.len(),
            None => r is None,
        },
{
    let (count, mut cur) = match read_u64(b, pos) {
        Some(x) => x,
        None => {
            return None;
        },
    };
    let ghost start = cur as int;
    let mut acc: Vec<char> = Vec::new();
    let mut i: u64 = 0;
    proof {
        assert(b@.skip(pos as int).skip(8) =~= b@.skip(start));
        match spec_dec_chars(b@.skip(start), count as nat) {
            Some((s, m)) => {
                assert(Seq::<char>::empty() + s =~= s);
            },
            None => {},
        }
    }
    while i < count
        invariant
            pos <= cur <= b@.len(),
            i <= count,
            acc@.len() == i,
            match spec_dec_chars(b@.skip(cur as int), (count - i) as nat) {
                Some((s, m)) => spec_dec_chars(b@.skip(start), count as nat) == Some(
                    (acc@ + s, cur - start + m),
                ),
                None => spec_dec_chars(b@.skip(start), count as nat) is None,
            },
        decreases count - i,
    {
        match read_char(b, cur) {
            Some((c, p2)) => {
                proof {
                    assert(b@.skip(cur as int).skip(4) =~= b@.skip(cur as int + 4));
                    match spec_dec_chars(b@.skip(cur as int + 4), (count - i - 1) as nat) {
                        Some((s2, m2)) => {
                            assert(acc@ + (seq![c] + s2) =~= acc@.push(c) + s2);
                        },
                        None => {},
                    }
                }
                acc.push(c);
                cur = p2;
            },
            None => {
                return None;
            },
        }
        i = i + 1;
    }
    proof {
        assert(acc@ + Seq::<char>::empty() =~= acc@);
    }
    let s = chars_string(&acc);
    Some((s, cur))
}

fn read_status(b: &Vec<u8>, pos: usize) -> (r: Option<(Status, usize)>)
    requires
        pos <= b@.len(),
    ensures
        dec_ok(spec_dec_status(b@.skip(pos as int)), r, pos as int, b@.len() as int),
{
    if b.len() - pos >= 1 {
        let tag = b[pos];
        if tag == 0 {
            Some((Status::RequestReceived, pos + 1))
        } else if tag == 1 {
            Some((Status::TokenReceived, pos + 1))
        } else if tag == 2 {
            Some((Status::TokenMinted, pos + 1))
        } else if tag == 3 {
            Some((Status::Completed, pos + 1))
        } else if tag == 4 {
            Some((Status::Canceled, pos + 1))
        } else {
            None
        }
    } else {
        None
    }
}

fn read_chains(b: &Vec<u8>, pos: usize) -> (r: Option<(Chains, usize)>)
    requires
        pos <= b@.len(),
    ensures
        dec_ok(spec_dec_chains(b@.skip(pos as int)), r, pos as int, b@.len() as int),
{
    if b.len() - pos >= 1 {
        let tag = b[pos];
        if tag == 0 {
            Some((Chains::EVM, pos + 1))
        } else if tag == 1 {
            Some((Chains::SOLANA, pos + 1))
        } else {
            None
        }
    } else {
        None
    }
}

fn read_timestamp(b: &Vec<u8>, pos: usize) -> (r: Option<(Timestamp, usize)>)
    requires
        pos <= b@.len(),
    ensures
        dec_ok(spec_dec_timestamp(b@.skip(pos as int)), r, pos as int, b@.len() as int),
{
    let (secs, p1) = match read_u64(b, pos) {
        Some(x) => x,
        None => {
            return None;
        },
    };
    proof {
        assert(b@.skip(pos as int).skip(8) =~= b@.skip(pos as int + 8));
    }
    let (nanos, p2) = match read_u32(b, p1) {
        Some(x) => x,
        None => {
            return None;
        },
    };
    Some((Timestamp { secs, nanos }, p2))
}

fn read_output(b: &Vec<u8>, pos: usize) -> (r: Option<(OutputResult, usize)>)
    requires
        pos <= b@.len(),
    ensures
        match spec_dec_output(b@.skip(pos as int)) {
            Some((o, m)) => r matches Some(p) && p.0@ == o && p.1 == pos + m && pos + m
                <= b@.len(),
            None => r is None,
        },
{
    let (acct, p1) = match read_string(b, pos) {
        Some(x) => x,
        None => {
            return None;
        },
    };
    proof {
        lemma_dec_str_len(b@.skip(pos as int));
        assert(b@.skip(pos as int).skip(p1 - pos) =~= b@.skip(p1 as int));
    }
    let (mint, p2) = match read_string(b, p1) {
        Some(x) => x,
        None => {
            return None;
        },
    };
    Some(
        (
            OutputResult {
                detination_token_id_or_account: acct,
                detination_contract_id_or_mint: mint,
            },
            p2,
        ),
    )
}

fn read_input(b: &Vec<u8>, pos: usize) -> (r: Option<(InputRequest, usize)>)
    requires
        pos <= b@.len(),
    ensures
        match spec_dec_input(b@.skip(pos as int)) {
            Some((i, m)) => r matches Some(p) && p.0@ == i && p.1 == pos + m && pos + m
                <= b@.len(),
            None => r is None,
        },
{
    let (contract, p1) = match read_string(b, pos) {
        Some(x) => x,
        None => {
            return None;
        },
    };
    proof {
        lemma_dec_str_len(b@.skip(pos as int));
        assert(b@.skip(pos as int).skip(p1 - pos) =~= b@.skip(p1 as int));
    }
    let (token_id, p2) = match read_string(b, p1) {
        Some(x) => x,
        None => {
            return None;
        },
    };
    proof {
        lemma_dec_str_len(b@.skip(p1 as int));
        assert(b@.skip(pos as int).skip(p2 - pos) =~= b@.skip(p2 as int));
    }
    let (owner, p3) = match read_string(b, p2) {
        Some(x) => x,
        None => {
            return None;
        },
    };
    proof {
        lemma_dec_str_len(b@.skip(p2 as int));
        assert(b@.skip(pos as int).skip(p3 - pos) =~= b@.skip(p3 as int));
    }
    let (net, p4) = match read_chains(b, p3) {
        Some(x) => x,
        None => {
            return None;
        },
    };
    proof {
        assert(b@.skip(pos as int).skip(p4 - pos) =~= b@.skip(p4 as int));
    }
    let (dest, p5) = match read_string(b, p4) {
        Some(x) => x,
        None => {
            return None;
        },
    };
    Some(
        (
            InputRequest {
                contract_or_mint: contract,
                token_id: token_id,
                token_owner: owner,
                origin_network: net,
                destination_account: dest,
            },
            p5,
        ),
    )
}

#[verifier::loop_isolation(false)]
fn read_str_list(b: &Vec<u8>, pos: usize) -> (r: Option<(Vec<String>, usize)>)
    requires
        pos <= b@.len(),
    ensures
        match spec_dec_str_list(b@.skip(pos as int)) {
            Some((v, m)) => r matches Some(p) && p.0.deep_view() == v && p.1 == pos + m && pos + m
                <= b@.len(),
            None => r is None,
        },
{
    let (count, mut cur) = match read_u64(b, pos) {
        Some(x) => x,
        None => {
            return None;
        },
    };
    let ghost start = cur as int;
    let mut acc: Vec<String> = Vec::new();
    let mut i: u64 = 0;
    proof {
        assert(b@.skip(pos as int).skip(8) =~= b@.skip(start));
        assert(acc.deep_view() =~= Seq::<Seq<char>>::empty());
        match spec_dec_str_seq(b@.skip(start), count as nat) {
            Some((v, m)) => {
                assert(Seq::<Seq<char>>::empty() + v =~= v);
            },
            None => {},
        }
    }
    while i < count
        invariant
            pos <= cur <= b@.len(),
            i <= count,
            acc@.len() == i,
            match spec_dec_str_seq(b@.skip(cur as int), (count - i) as nat) {
                Some((v, m)) => spec_dec_str_seq(b@.skip(start), count as nat) == Some(
                    (acc.deep_view() + v, cur - start + m),
                ),
                None => spec_dec_str_seq(b@.skip(start), count as nat) is None,
            },
        decreases count - i,
    {
        match read_string(b, cur) {
            Some((s, p2)) => {
                proof {
                    lemma_dec_str_len(b@.skip(cur as int));
                    assert(b@.skip(cur as int).skip(p2 - cur) =~= b@.skip(p2 as int));
                    let ghost acc2 = acc.deep_view().push(s@);
                    match spec_dec_str_seq(b@.skip(p2 as int), (count - i - 1) as nat) {
                        Some((v2, m2)) => {
                            assert(acc.deep_view() + (seq![s@] + v2) =~= acc2 + v2);
                        },
                        None => {},
                    }
                }
                let ghost old_acc = acc.deep_view();
                acc.push(s);
                proof {
                    assert(acc.deep_view() =~= old_acc.push(acc@[acc@.len() - 1]@));
                }
                cur = p2;
            },
            None => {
                return None;
            },
        }
        i = i + 1;
    }
    proof {
        assert(acc.deep_view() + Seq::<Seq<char>>::empty() =~= acc.deep_view());
    }
    Some((acc, cur))
}

#[verifier::loop_isolation(false)]
fn read_index(b: &Vec<u8>, pos: usize) -> (r: Option<(Vec<(String, i128)>, usize)>)
    requires
        pos <= b@.len(),
    ensures
        match spec_dec_index(b@.skip(pos as int)) {
            Some((v, m)) => r matches Some(p) && index_view(p.0@) == v && p.1 == pos + m && pos + m
                <= b@.len(),
            None => r is None,
        },
{
    let (count, mut cur) = match read_u64(b, pos) {
        Some(x) => x,
        None => {
            return None;
        },
    };
    let ghost start = cur as int;
    let mut acc: Vec<(String, i128)> = Vec::new();
    let mut i: u64 = 0;
    proof {
        assert(b@.skip(pos as int).skip(8) =~= b@.skip(start));
        assert(index_view(acc@) =~= Seq::<(Seq<char>, i128)>::empty());
        match spec_dec_index_entries(b@.skip(start), count as nat) {
            Some((v, m)) => {
                assert(Seq::<(Seq<char>, i128)>::empty() + v =~= v);
            },
            None => {},
        }
    }
    while i < count
        invariant
            pos <= cur <= b@.len(),
            i <= count,
            acc@.len() == i,
            match spec_dec_index_entries(b@.skip(cur as int), (count - i) as nat) {
                Some((v, m)) => spec_dec_index_entries(b@.skip(start), count as nat) == Some(
                    (index_view(acc@) + v, cur - start + m),
                ),
                None => spec_dec_index_entries(b@.skip(start), count as nat) is None,
            },
        decreases count - i,
    {
        let (key, p2) = match read_string(b, cur) {
            Some(x) => x,
            None => {
                return None;
            },
        };
        proof {
            lemma_dec_str_len(b@.skip(cur as int));
            assert(b@.skip(cur as int).skip(p2 - cur) =~= b@.skip(p2 as int));
        }
        let (value, p3) = match read_i128(b, p2) {
            Some(x) => x,
            None => {
                return None;
            },
        };
        proof {
            assert(b@.skip(cur as int).skip(p3 - cur) =~= b@.skip(p3 as int));
            let ghost acc2 = index_view(acc@).push((key@, value));
            match spec_dec_index_entries(b@.skip(p3 as int), (count - i - 1) as nat) {
                Some((v2, m2)) => {
                    assert(index_view(acc@) + (seq![(key@, value)] + v2) =~= acc2 + v2);
                },
                None => {},
            }
        }
        let ghost old_acc = index_view(acc@);
        acc.push((key, value));
        proof {
            assert(index_view(acc@) =~= old_acc.push((acc@[acc@.len() - 1].0@, acc@[acc@.len()
                - 1].1)));
        }
        cur = p3;
        i = i + 1;
    }
    proof {
        assert(index_view(acc@) + Seq::<(Seq<char>, i128)>::empty() =~= index_view(acc@));
    }
    Some((acc, cur))
}

fn read_brequest(b: &Vec<u8>, pos: usize) -> (r: Option<(BRequest, usize)>)
    requires
        pos <= b@.len(),
    ensures
        match spec_dec_brequest(b@.skip(pos as int)) {
            Some((v, m)) => r matches Some(p) && p.0@ == v && p.1 == pos + m && pos + m
                <= b@.len(),
            None => r is None,
        },
{
    let (id, p1) = match read_string(b, pos) {
        Some(x) => x,
        None => {
            return None;
        },
    };
    proof {
        lemma_dec_str_len(b@.skip(pos as int));
        assert(b@.skip(pos as int).skip(p1 - pos) =~= b@.skip(p1 as int));
    }
    let (status, p2) = match read_status(b, p1) {
        Some(x) => x,
        None => {
            return None;
        },
    };
    proof {
        assert(b@.skip(pos as int).skip(p2 - pos) =~= b@.skip(p2 as int));
    }
    let (input, p3) = match read_input(b, p2) {
        Some(x) => x,
        None => {
            return None;
        },
    };
    proof {
        lemma_dec_input_len(b@.skip(p2 as int));
        assert(b@.skip(pos as int).skip(p3 - pos) =~= b@.skip(p3 as int));
    }
    let (txs, p4) = match read_str_list(b, p3) {
        Some(x) => x,
        None => {
            return None;
        },
    };
    proof {
        lemma_dec_str_list_len(b@.skip(p3 as int));
        assert(b@.skip(pos as int).skip(p4 - pos) =~= b@.skip(p4 as int));
    }
    let (output, p5) = match read_output(b, p4) {
        Some(x) => x,
        None => {
            return None;
        },
    };
    proof {
        lemma_dec_output_len(b@.skip(p4 as int));
        assert(b@.skip(pos as int).skip(p5 - pos) =~= b@.skip(p5 as int));
    }
    let (ts, p6) = match read_timestamp(b, p5) {
        Some(x) => x,
        None => {
            return None;
        },
    };
    Some(
        (
            BRequest {
                id: id,
                status: status,
                input: input,
                tx_hashes: txs,
                output: output,
                last_update: ts,
            },
            p6,
        ),
    )
}

/// Decode a whole stored value as a request record.
pub fn decode_request(b: &Vec<u8>) -> (r: Option<BRequest>)
    ensures
        match spec_decode_request(b@) {
            Some(v) => r matches Some(p) && p@ == v,
            None => r is None,
        },
{
    proof {
        assert(b@.skip(0) =~= b@);
    }
    match read_brequest(b, 0) {
        Some((req, p)) => if p == b.len() {
            Some(req)
        } else {
            None
        },
        None => None,
    }
}

/// Decode a whole stored value as a list of ids.
pub fn decode_str_list(b: &Vec<u8>) -> (r: Option<Vec<String>>)
    ensures
        match spec_decode_str_list(b@) {
            Some(v) => r matches Some(p) && p.deep_view() == v,
            None => r is None,
        },
{
    proof {
        assert(b@.skip(0) =~= b@);
    }
    match read_str_list(b, 0) {
        Some((v, p)) => if p == b.len() {
            Some(v)
        } else {
            None
        },
        None => None,
    }
}

/// Decode a whole stored value as the pending index.
pub fn decode_index(b: &Vec<u8>) -> (r: Option<Vec<(String, i128)>>)
    ensures
        match spec_decode_index(b@) {
            Some(v) => r matches Some(p) && index_view(p@) == v,
            None => r is None,
        },
{
    proof {
        assert(b@.skip(0) =~= b@);
    }
    match read_index(b, 0) {
        Some((v, p)) => if p == b.len() {
            Some(v)
        } else {
            None
        },
        None => None,
    }
}

/// Encode a whole request record.
pub fn encode_request(r: &BRequest) -> (out: Vec<u8>)
    ensures
        out@ == spec_enc_brequest(r@),
        brequest_fits(r@),
{
    let mut out = encode_str(r.id.as_str());
    let mut p2 = encode_status(&r.status);
    let mut p3 = encode_input(&r.input);
    let mut p4 = encode_str_list(&r.tx_hashes);
    let mut p5 = encode_output(&r.output);
    let mut p6 = encode_timestamp(&r.last_update);
    out.append(&mut p2);
    out.append(&mut p3);
    out.append(&mut p4);
    out.append(&mut p5);
    out.append(&mut p6);
    out
}

// ---------------------------------------------------------------------------
// Round trip: decoding an encoding yields the value back, whatever follows.
// ---------------------------------------------------------------------------

proof fn lemma_skip_concat(a: Seq<u8>, b: Seq<u8>)
    ensures
        (a + b).skip(a.len() as int) == b,
{
    assert((a + b).skip(a.len() as int) =~= b);
}

proof fn lemma_enc_chars_len(s: Seq<char>)
    ensures
        spec_enc_chars(s).len() == 4 * s.len(),
    decreases s.len(),
{
    lemma_auto_spec_u32_to_from_le_bytes();

    if s.len() > 0 {
        lemma_enc_chars_len(s.drop_first());
    }
}

proof fn lemma_enc_dec_u64(x: u64, rest: Seq<u8>)
    ensures
        spec_dec_u64(spec_enc_u64(x) + rest) == Some((x, 8int)),
{
    lemma_auto_spec_u64_to_from_le_bytes();

    assert((spec_enc_u64(x) + rest).subrange(0, 8) =~= spec_enc_u64(x));
}

proof fn lemma_enc_dec_u32(x: u32, rest: Seq<u8>)
    ensures
        spec_dec_u32(spec_enc_u32(x) + rest) == Some((x, 4int)),
{
    lemma_auto_spec_u32_to_from_le_bytes();

    assert((spec_enc_u32(x) + rest).subrange(0, 4) =~= spec_enc_u32(x));
}

proof fn lemma_enc_dec_i128(x: i128, rest: Seq<u8>)
    ensures
        spec_dec_i128(spec_enc_i128(x) + rest) == Some((x, 16int)),
{
    lemma_auto_spec_u128_to_from_le_bytes();

    assert((spec_enc_i128(x) + rest).subrange(0, 16) =~= spec_enc_i128(x));
    assert(((x as u128) as i128) == x) by (bit_vector);
}

proof fn lemma_enc_dec_char(c: char, rest: Seq<u8>)
    ensures
        spec_dec_char(spec_enc_u32(c as u32) + rest) == Some((c, 4int)),
{
    lemma_enc_dec_u32(c as u32, rest);
    char_is_scalar(c);
    char_u32_cast(c, c as u32);
}

proof fn lemma_enc_dec_chars(s: Seq<char>, rest: Seq<u8>)
    ensures
        spec_dec_chars(spec_enc_chars(s) + rest, s.len()) == Some((s, 4 * s.len() as int)),
    decreases s.len(),
{
    if s.len() == 0 {
        assert(spec_enc_chars(s) + rest =~= rest);
        assert(spec_dec_chars(rest, 0) == Some((Seq::<char>::empty(), 0int)));
        assert(s =~= Seq::<char>::empty());
    } else {
        let tail = spec_enc_chars(s.drop_first()) + rest;
        assert(spec_enc_chars(s) + rest =~= spec_enc_u32(s[0] as u32) + tail);
        lemma_enc_dec_char(s[0], tail);
        lemma_auto_spec_u32_to_from_le_bytes();

        lemma_skip_concat(spec_enc_u32(s[0] as u32), tail);
        lemma_enc_dec_chars(s.drop_first(), rest);
        assert(seq![s[0]] + s.drop_first() =~= s);
    }
}

proof fn lemma_enc_dec_str(s: Seq<char>, rest: Seq<u8>)
    requires
        str_fits(s),
    ensures
        spec_dec_str(spec_enc_str(s) + rest) == Some((s, spec_enc_str(s).len() as int)),
{
    lemma_auto_spec_u64_to_from_le_bytes();

    let tail = spec_enc_chars(s) + rest;
    assert(spec_enc_str(s) + rest =~= spec_enc_u64(s.len() as u64) + tail);
    lemma_enc_dec_u64(s.len() as u64, tail);
    lemma_skip_concat(spec_enc_u64(s.len() as u64), tail);
    lemma_enc_dec_chars(s, rest);
    lemma_enc_chars_len(s);
}

proof fn lemma_enc_dec_status(st: Status, rest: Seq<u8>)
    ensures
        spec_dec_status(spec_enc_status(st) + rest) == Some((st, 1int)),
{
    assert((spec_enc_status(st) + rest)[0] == spec_status_tag(st));
}

proof fn lemma_enc_dec_chains(c: Chains, rest: Seq<u8>)
    ensures
        spec_dec_chains(spec_enc_chains(c) + rest) == Some((c, 1int)),
{
    assert((spec_enc_chains(c) + rest)[0] == spec_chains_tag(c));
}

proof fn lemma_enc_dec_timestamp(t: Timestamp, rest: Seq<u8>)
    ensures
        spec_dec_timestamp(spec_enc_timestamp(t) + rest) == Some(
            (t, spec_enc_timestamp(t).len() as int),
        ),
{
    lemma_auto_spec_u64_to_from_le_bytes();
    lemma_auto_spec_u32_to_from_le_bytes();

    let tail = spec_enc_u32(t.nanos) + rest;
    assert(spec_enc_timestamp(t) + rest =~= spec_enc_u64(t.secs) + tail);
    lemma_enc_dec_u64(t.secs, tail);
    lemma_skip_concat(spec_enc_u64(t.secs), tail);
    lemma_enc_dec_u32(t.nanos, rest);
}

proof fn lemma_enc_dec_output(o: OutputResultView, rest: Seq<u8>)
    requires
        output_fits(o),
    ensures
        spec_dec_output(spec_enc_output(o) + rest) == Some(
            (o, spec_enc_output(o).len() as int),
        ),
{
    let tail = spec_enc_str(o.detination_contract_id_or_mint) + rest;
    assert(spec_enc_output(o) + rest =~= spec_enc_str(o.detination_token_id_or_account) + tail);
    lemma_enc_dec_str(o.detination_token_id_or_account, tail);
    lemma_skip_concat(spec_enc_str(o.detination_token_id_or_account), tail);
    lemma_enc_dec_str(o.detination_contract_id_or_mint, rest);
}

proof fn lemma_enc_dec_input(i: InputRequestView, rest: Seq<u8>)
    requires
        input_fits(i),
    ensures
        spec_dec_input(spec_enc_input(i) + rest) == Some((i, spec_enc_input(i).len() as int)),
{
    let r5 = spec_enc_str(i.destination_account) + rest;
    let r4 = spec_enc_chains(i.origin_network) + r5;
    let r3 = spec_enc_str(i.token_owner) + r4;
    let r2 = spec_enc_str(i.token_id) + r3;
    assert(spec_enc_input(i) + rest =~= spec_enc_str(i.contract_or_mint) + r2);
    lemma_enc_dec_str(i.contract_or_mint, r2);
    lemma_skip_concat(spec_enc_str(i.contract_or_mint), r2);
    lemma_enc_dec_str(i.token_id, r3);
    lemma_skip_concat(spec_enc_str(i.token_id), r3);
    lemma_enc_dec_str(i.token_owner, r4);
    lemma_skip_concat(spec_enc_str(i.token_owner), r4);
    lemma_enc_dec_chains(i.origin_network, r5);
    lemma_skip_concat(spec_enc_chains(i.origin_network), r5);
    lemma_enc_dec_str(i.destination_account, rest);
    let b = spec_enc_input(i) + rest;
    assert(b.skip(spec_enc_str(i.contract_or_mint).len() as int) == r2);
    assert(b.skip(spec_enc_str(i.contract_or_mint).len() + spec_enc_str(i.token_id).len() as int) =~= r3);
    assert(b.skip(
        spec_enc_str(i.contract_or_mint).len() + spec_enc_str(i.token_id).len() + spec_enc_str(
            i.token_owner,
        ).len() as int,
    ) =~= r4);
    assert(b.skip(
        spec_enc_str(i.contract_or_mint).len() + spec_enc_str(i.token_id).len() + spec_enc_str(
            i.token_owner,
        ).len() + 1int,
    ) =~= r5);
}

proof fn lemma_enc_dec_str_seq(v: Seq<Seq<char>>, rest: Seq<u8>)
    requires
        forall|i: int| 0 <= i < v.len() ==> str_fits(#[trigger] v[i]),
    ensures
        spec_dec_str_seq(spec_enc_str_seq(v) + rest, v.len()) == Some(
            (v, spec_enc_str_seq(v).len() as int),
        ),
    decreases v.len(),
{
    if v.len() == 0 {
        assert(spec_enc_str_seq(v) + rest =~= rest);
        assert(v =~= Seq::<Seq<char>>::empty());
    } else {
        let tail = spec_enc_str_seq(v.drop_first()) + rest;
        assert(spec_enc_str_seq(v) + rest =~= spec_enc_str(v[0]) + tail);
        lemma_enc_dec_str(v[0], tail);
        lemma_skip_concat(spec_enc_str(v[0]), tail);
        lemma_enc_dec_str_seq(v.drop_first(), rest);
        assert(seq![v[0]] + v.drop_first() =~= v);
    }
}

proof fn lemma_enc_dec_str_list(v: Seq<Seq<char>>, rest: Seq<u8>)
    requires
        str_seq_fits(v),
    ensures
        spec_dec_str_list(spec_enc_str_list(v) + rest) == Some(
            (v, spec_enc_str_list(v).len() as int),
        ),
{
    let tail = spec_enc_str_seq(v) + rest;
    assert(spec_enc_str_list(v) + rest =~= spec_enc_u64(v.len() as u64) + tail);
    lemma_enc_dec_u64(v.len() as u64, tail);
    lemma_skip_concat(spec_enc_u64(v.len() as u64), tail);
    lemma_enc_dec_str_seq(v, rest);
    lemma_auto_spec_u64_to_from_le_bytes();

}

proof fn lemma_enc_dec_index_entries(v: Seq<(Seq<char>, i128)>, rest: Seq<u8>)
    requires
        forall|i: int| 0 <= i < v.len() ==> str_fits(#[trigger] v[i].0),
    ensures
        spec_dec_index_entries(spec_enc_index_entries(v) + rest, v.len()) == Some(
            (v, spec_enc_index_entries(v).len() as int),
        ),
    decreases v.len(),
{
    if v.len() == 0 {
        assert(spec_enc_index_entries(v) + rest =~= rest);
        assert(v =~= Seq::<(Seq<char>, i128)>::empty());
    } else {
        let t2 = spec_enc_index_entries(v.drop_first()) + rest;
        let t1 = spec_enc_i128(v[0].1) + t2;
        assert(spec_enc_index_entries(v) + rest =~= spec_enc_str(v[0].0) + t1);
        lemma_enc_dec_str(v[0].0, t1);
        lemma_skip_concat(spec_enc_str(v[0].0), t1);
        lemma_enc_dec_i128(v[0].1, t2);
        lemma_skip_concat(spec_enc_i128(v[0].1), t2);
        lemma_auto_spec_u128_to_from_le_bytes();

        let b = spec_enc_index_entries(v) + rest;
        assert(b.skip(spec_enc_str(v[0].0).len() as int) == t1);
        assert(b.skip(spec_enc_str(v[0].0).len() + 16int) =~= t2);
        lemma_enc_dec_index_entries(v.drop_first(), rest);
        assert(seq![v[0]] + v.drop_first() =~= v);
    }
}

proof fn lemma_enc_dec_index(v: Seq<(Seq<char>, i128)>, rest: Seq<u8>)
    requires
        index_entries_fit(v),
    ensures
        spec_dec_index(spec_enc_index(v) + rest) == Some((v, spec_enc_index(v).len() as int)),
{
    let tail = spec_enc_index_entries(v) + rest;
    assert(spec_enc_index(v) + rest =~= spec_enc_u64(v.len() as u64) + tail);
    lemma_enc_dec_u64(v.len() as u64, tail);
    lemma_skip_concat(spec_enc_u64(v.len() as u64), tail);
    lemma_enc_dec_index_entries(v, rest);
    lemma_auto_spec_u64_to_from_le_bytes();

}

proof fn lemma_enc_dec_brequest(r: BRequestView, rest: Seq<u8>)
    requires
        brequest_fits(r),
    ensures
        spec_dec_brequest(spec_enc_brequest(r) + rest) == Some(
            (r, spec_enc_brequest(r).len() as int),
        ),
{
    let r6 = spec_enc_timestamp(r.last_update) + rest;
    let r5 = spec_enc_output(r.output) + r6;
    let r4 = spec_enc_str_list(r.tx_hashes) + r5;
    let r3 = spec_enc_input(r.input) + r4;
    let r2 = spec_enc_status(r.status) + r3;
    assert(spec_enc_brequest(r) + rest =~= spec_enc_str(r.id) + r2);
    lemma_enc_dec_str(r.id, r2);
    lemma_skip_concat(spec_enc_str(r.id), r2);
    lemma_enc_dec_status(r.status, r3);
    lemma_skip_concat(spec_enc_status(r.status), r3);
    lemma_enc_dec_input(r.input, r4);
    lemma_skip_concat(spec_enc_input(r.input), r4);
    lemma_enc_dec_str_list(r.tx_hashes, r5);
    lemma_skip_concat(spec_enc_str_list(r.tx_hashes), r5);
    lemma_enc_dec_output(r.output, r6);
    lemma_skip_concat(spec_enc_output(r.output), r6);
    lemma_enc_dec_timestamp(r.last_update, rest);
    let b = spec_enc_brequest(r) + rest;
    let m1 = spec_enc_str(r.id).len() as int;
    let m3 = spec_enc_input(r.input).len() as int;
    let m4 = spec_enc_str_list(r.tx_hashes).len() as int;
    let m5 = spec_enc_output(r.output).len() as int;
    assert(b.skip(m1) == r2);
    assert(b.skip(m1 + 1) =~= r3);
    assert(b.skip(m1 + 1 + m3) =~= r4);
    assert(b.skip(m1 + 1 + m3 + m4) =~= r5);
    assert(b.skip(m1 + 1 + m3 + m4 + m5) =~= r6);
}

/// Round trip for request records: reading a written record yields the record
/// back, field for field.
pub proof fn lemma_request_round_trip(r: BRequestView)
    requires
        brequest_fits(r),
    ensures
        spec_decode_request(spec_enc_brequest(r)) == Some(r),
{
    lemma_enc_dec_brequest(r, Seq::empty());
    assert(spec_enc_brequest(r) + Seq::<u8>::empty() =~= spec_enc_brequest(r));
}

/// Round trip for id lists: reading a written list yields the same ids in the
/// same order.
pub proof fn lemma_str_list_round_trip(v: Seq<Seq<char>>)
    requires
        str_seq_fits(v),
    ensures
        spec_decode_str_list(spec_enc_str_list(v)) == Some(v),
{
    lemma_enc_dec_str_list(v, Seq::empty());
    assert(spec_enc_str_list(v) + Seq::<u8>::empty() =~= spec_enc_str_list(v));
}

/// Round trip for the pending index: reading a written index yields the same
/// entries in the same order.
pub proof fn lemma_index_round_trip(v: Seq<(Seq<char>, i128)>)
    requires
        index_entries_fit(v),
    ensures
        spec_decode_index(spec_enc_index(v)) == Some(v),
{
    lemma_enc_dec_index(v, Seq::empty());
    assert(spec_enc_index(v) + Seq::<u8>::empty() =~= spec_enc_index(v));
}

} // verus!
