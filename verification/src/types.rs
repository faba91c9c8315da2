//! Data model of the relayer: the request record, its status ladder, the
//! api-facing input shapes and the in-process worker messages.

use vstd::prelude::*;

verus! {

/// Lifecycle of a bridge request.  The ladder
/// `RequestReceived -> TokenReceived -> TokenMinted -> Completed` is linear;
/// `Canceled` is an absorbing state reachable from any non-terminal one.
#[derive(Clone, Copy, Debug, PartialEq, Eq, Structural)]
pub enum Status {
    RequestReceived,
    TokenReceived,
    TokenMinted,
    Completed,
    Canceled,
}

/// The two chains a request can originate from.
#[derive(Clone, Copy, Debug, PartialEq, Eq, Structural)]
pub enum Chains {
    EVM,
    SOLANA,
}

/// `Completed` and `Canceled` retain a request forever; nothing advances past
/// them.
pub open spec fn is_terminal(s: Status) -> bool {
    s == Status::Completed || s == Status::Canceled
}

/// One step along the status ladder; the identity on terminal states.
pub open spec fn step_status(s: Status) -> Status {
    match s {
        Status::RequestReceived => Status::TokenReceived,
        Status::TokenReceived => Status::TokenMinted,
        Status::TokenMinted => Status::Completed,
        Status::Completed => Status::Completed,
        Status::Canceled => Status::Canceled,
    }
}

/// Position of a status on the ladder; `Canceled` sits off-ladder above all.
pub open spec fn status_rank(s: Status) -> nat {
    match s {
        Status::RequestReceived => 0,
        Status::TokenReceived => 1,
        Status::TokenMinted => 2,
        Status::Completed => 3,
        Status::Canceled => 4,
    }
}

/// A step is a fixpoint exactly on the terminal states: advancing a completed
/// or canceled request changes nothing.
pub proof fn lemma_step_terminal_fixpoint(s: Status)
    ensures
        is_terminal(s) <==> step_status(s) == s,
{
}


/// One observed step of a request's status: between two snapshots it stays,
/// advances one rung, or cancels from a state that has not completed.
pub open spec fn valid_transition(a: Status, b: Status) -> bool {
    b == a || b == step_status(a) || (!is_terminal(a) && b == Status::Canceled)
}

proof fn lemma_status_reach(h: Seq<Status>, i: int, j: int)
    requires
        0 <= i <= j < h.len(),
        forall|t: int| 0 <= t < h.len() - 1 ==> valid_transition(#[trigger] h[t], h[t + 1]),
    ensures
        status_rank(h[i]) <= status_rank(h[j]),
        h[i] == Status::Canceled ==> h[j] == Status::Canceled,
    decreases j - i,
{
    if i < j {
        lemma_status_reach(h, i, j - 1);
        assert(valid_transition(h[j - 1], h[j]));
    }
}

/// The statuses observed of one request over time form a prefix of the
/// ladder `RequestReceived, TokenReceived, TokenMinted, Completed`, or end
/// with `Canceled`: ranks never decrease, every proper non-cancel move
/// climbs exactly one rung from a fresh start, and cancellation is final.
pub proof fn lemma_status_history(h: Seq<Status>)
    requires
        h.len() > 0,
        h[0] == Status::RequestReceived,
        forall|t: int| 0 <= t < h.len() - 1 ==> valid_transition(#[trigger] h[t], h[t + 1]),
    ensures
        forall|i: int, j: int|
            0 <= i <= j < h.len() ==> status_rank(#[trigger] h[i]) <= status_rank(#[trigger] h[j]),
        forall|i: int|
            0 <= i < h.len() - 1 ==> ((h[i + 1] != h[i] && h[i + 1] != Status::Canceled)
                ==> status_rank(#[trigger] h[i + 1]) == status_rank(h[i]) + 1),
        forall|i: int, j: int|
            0 <= i <= j < h.len() ==> ((#[trigger] h[i]) == Status::Canceled ==> (
            #[trigger] h[j]) == Status::Canceled),
{
    assert forall|i: int, j: int| 0 <= i <= j < h.len() implies status_rank(#[trigger] h[i])
        <= status_rank(#[trigger] h[j]) by {
        lemma_status_reach(h, i, j);
    }
    assert forall|i: int|
        0 <= i < h.len() - 1 && h[i + 1] != h[i] && h[i + 1]
        != Status::Canceled implies status_rank(#[trigger] h[i + 1]) == status_rank(h[i]) + 1 by {
        assert(valid_transition(h[i], h[i + 1]));
    }
    assert forall|i: int, j: int|
        0 <= i <= j < h.len() && (#[trigger] h[i]) == Status::Canceled implies (#[trigger] h[j])
        == Status::Canceled by {
        lemma_status_reach(h, i, j);
    }
}

/// Wall-clock time since the epoch, as the store records it.
#[derive(Clone, Copy, Debug, PartialEq, Eq, Structural)]
pub struct Timestamp {
    pub secs: u64,
    pub nanos: u32,
}

/// Timestamp order: by seconds, then nanoseconds.
pub open spec fn timestamp_le(a: Timestamp, b: Timestamp) -> bool {
    a.secs < b.secs || (a.secs == b.secs && a.nanos <= b.nanos)
}

impl Timestamp {
    /// The later of two timestamps: what a record's `last_update` becomes, so
    /// that it never decreases even when the clock steps backwards.
    pub fn later(self, other: Timestamp) -> (r: Timestamp)
        ensures
            r == (if timestamp_le(self, other) {
                other
            } else {
                self
            }),
            timestamp_le(self, r),
            timestamp_le(other, r),
    {
        if self.secs < other.secs || (self.secs == other.secs && self.nanos <= other.nanos) {
            other
        } else {
            self
        }
    }
}

/// What a caller submits: the token to bridge and where the representative
/// token must land.  For Solana-origin requests `token_id` is empty and
/// `token_owner` carries the user's SPL token account.
#[derive(Clone, Debug, PartialEq)]
pub struct InputRequest {
    pub contract_or_mint: String,
    pub token_id: String,
    pub token_owner: String,
    pub origin_network: Chains,
    pub destination_account: String,
}

/// Destination-side result, written exactly once when the mint finalizes.
#[derive(Clone, Debug, PartialEq)]
pub struct OutputResult {
    pub detination_token_id_or_account: String,
    pub detination_contract_id_or_mint: String,
}

impl Default for OutputResult {
    /// Both fields empty: the value a request carries until it finalizes.
    fn default() -> (r: OutputResult)
        ensures
            r.detination_token_id_or_account@ == Seq::<char>::empty(),
            r.detination_contract_id_or_mint@ == Seq::<char>::empty(),
    {
        OutputResult {
            detination_token_id_or_account: String::new(),
            detination_contract_id_or_mint: String::new(),
        }
    }
}

/// The durable unit of work: one bridge request with its full history.
#[derive(Clone, Debug, PartialEq)]
pub struct BRequest {
    pub id: String,
    pub status: Status,
    pub input: InputRequest,
    pub tx_hashes: Vec<String>,
    pub output: OutputResult,
    pub last_update: Timestamp,
}

/// Mathematical shape of an [`InputRequest`]: every string as its character
/// sequence.
pub struct InputRequestView {
    pub contract_or_mint: Seq<char>,
    pub token_id: Seq<char>,
    pub token_owner: Seq<char>,
    pub origin_network: Chains,
    pub destination_account: Seq<char>,
}

impl View for InputRequest {
    type V = InputRequestView;

    open spec fn view(&self) -> InputRequestView {
        InputRequestView {
            contract_or_mint: self.contract_or_mint@,
            token_id: self.token_id@,
            token_owner: self.token_owner@,
            origin_network: self.origin_network,
            destination_account: self.destination_account@,
        }
    }
}

/// Mathematical shape of an [`OutputResult`].
pub struct OutputResultView {
    pub detination_token_id_or_account: Seq<char>,
    pub detination_contract_id_or_mint: Seq<char>,
}

impl View for OutputResult {
    type V = OutputResultView;

    open spec fn view(&self) -> OutputResultView {
        OutputResultView {
            detination_token_id_or_account: self.detination_token_id_or_account@,
            detination_contract_id_or_mint: self.detination_contract_id_or_mint@,
        }
    }
}

/// Mathematical shape of a [`BRequest`]: what the store records about it.
pub struct BRequestView {
    pub id: Seq<char>,
    pub status: Status,
    pub input: InputRequestView,
    pub tx_hashes: Seq<Seq<char>>,
    pub output: OutputResultView,
    pub last_update: Timestamp,
}

impl View for BRequest {
    type V = BRequestView;

    open spec fn view(&self) -> BRequestView {
        BRequestView {
            id: self.id@,
            status: self.status,
            input: self.input@,
            tx_hashes: self.tx_hashes.deep_view(),
            output: self.output@,
            last_update: self.last_update,
        }
    }
}

/// The digest behind request ids: the keccak-256 hash, as a 0x-prefixed hex
/// string, of the UTF-8 concatenation of contract, token id and owner.
pub uninterp spec fn keccak_hex_of(
    contract: Seq<char>,
    token_id: Seq<char>,
    token_owner: Seq<char>,
) -> Seq<char>;

/// Relies on alloy_primitives::keccak256 and the Display of its 32-byte
/// digest: a pure function of the three inputs, shown as "0x" plus 64 hex
/// digits.
#[verifier::external_body]
fn keccak_hex(contract: &str, token_id: &str, token_owner: &str) -> (r: String)
    ensures
        r@ == keccak_hex_of(contract@, token_id@, token_owner@),
        r@.len() == 66,
{
    let mut data = Vec::new();
    data.extend_from_slice(contract.as_bytes());
    data.extend_from_slice(token_id.as_bytes());
    data.extend_from_slice(token_owner.as_bytes());
    alloy_primitives::keccak256(&data).to_string()
}

impl BRequest {
    /// A fresh record for the given input: id derived from the input, status
    /// at the bottom of the ladder, no transactions, empty output.
    pub fn new(input: InputRequest) -> (r: BRequest)
        ensures
            r.id@ == keccak_hex_of(
                input.contract_or_mint@,
                input.token_id@,
                input.token_owner@,
            ),
            r.id@.len() == 66,
            r.status == Status::RequestReceived,
            r.input == input,
            r.tx_hashes@.len() == 0,
            r.output.detination_token_id_or_account@.len() == 0,
            r.output.detination_contract_id_or_mint@.len() == 0,
    {
        let request_id =
            BRequest::generate_id(&input.contract_or_mint, &input.token_id, &input.token_owner);
        BRequest {
            id: request_id,
            status: Status::RequestReceived,
            input,
            tx_hashes: Vec::new(),
            output: OutputResult::default(),
            last_update: BRequest::current_time(),
        }
    }

    /// The deterministic request id of a (contract, token id, owner) triple.
    pub fn generate_id(contract: &str, token_id: &str, token_owner: &str) -> (r: String)
        ensures
            r@ == keccak_hex_of(contract@, token_id@, token_owner@),
            r@.len() == 66,
    {
        keccak_hex(contract, token_id, token_owner)
    }

    /// Relies on std::time::SystemTime::now: the wall clock, read as a
    /// duration since the epoch.  Nothing is promised of the value.
    #[verifier::external_body]
    pub(crate) fn current_time() -> Timestamp {
        match std::time::SystemTime::now().duration_since(std::time::UNIX_EPOCH) {
            Ok(d) => Timestamp { secs: d.as_secs(), nanos: d.subsec_nanos() },
            Err(_) => Timestamp { secs: 0, nanos: 0 },
        }
    }
}

/// Body of a request submitted over the Solana-origin route.
#[derive(Clone, Debug)]
pub struct SolanaInputRequest {
    pub token_mint: String,
    pub token_account: String,
    pub origin_network: Chains,
    pub destination_account: String,
}

impl SolanaInputRequest {
    /// The common input shape of a Solana-origin request: the mint stands in
    /// the contract slot, the token id is empty, and the user's token account
    /// stands in the owner slot.
    pub fn into_input(self) -> (r: InputRequest)
        ensures
            r.contract_or_mint == self.token_mint,
            r.token_id@ == Seq::<char>::empty(),
            r.token_owner == self.token_account,
            r.origin_network == self.origin_network,
            r.destination_account == self.destination_account,
    {
        InputRequest {
            contract_or_mint: self.token_mint,
            token_id: String::new(),
            token_owner: self.token_account,
            origin_network: self.origin_network,
            destination_account: self.destination_account,
        }
    }
}

impl From<SolanaInputRequest> for InputRequest {
    fn from(sol_input: SolanaInputRequest) -> InputRequest {
        sol_input.into_input()
    }
}

impl vstd::std_specs::convert::FromSpecImpl<SolanaInputRequest> for InputRequest {
    open spec fn obeys_from_spec() -> bool {
        false
    }

    open spec fn from_spec(v: SolanaInputRequest) -> InputRequest {
        arbitrary()
    }
}

/// Body of a request submitted over the EVM-origin route.
#[derive(Clone, Debug)]
pub struct EVMInputRequest {
    pub token_contract: String,
    pub token_id: String,
    pub token_owner: String,
    pub origin_network: Chains,
    pub destination_account: String,
}

impl EVMInputRequest {
    /// The common input shape of an EVM-origin request: fields carry over
    /// one for one.
    pub fn into_input(self) -> (r: InputRequest)
        ensures
            r.contract_or_mint == self.token_contract,
            r.token_id == self.token_id,
            r.token_owner == self.token_owner,
            r.origin_network == self.origin_network,
            r.destination_account == self.destination_account,
    {
        InputRequest {
            contract_or_mint: self.token_contract,
            token_id: self.token_id,
            token_owner: self.token_owner,
            origin_network: self.origin_network,
            destination_account: self.destination_account,
        }
    }
}

impl From<EVMInputRequest> for InputRequest {
    fn from(evm_input: EVMInputRequest) -> InputRequest {
        evm_input.into_input()
    }
}

impl vstd::std_specs::convert::FromSpecImpl<EVMInputRequest> for InputRequest {
    open spec fn obeys_from_spec() -> bool {
        false
    }

    open spec fn from_spec(v: EVMInputRequest) -> InputRequest {
        arbitrary()
    }
}

/// What a transaction worker is asked to do.
#[derive(Clone, Copy, Debug)]
pub enum Function {
    Mint,
    NewRequest,
}

/// In-process envelope between an event listener and the opposite chain's
/// transaction worker.
#[derive(Clone, Debug)]
pub struct TxMessage {
    pub accion: Function,
    pub mint_data: Option<MessageMint>,
    pub request_data: Option<MessageNewRequest>,
}

/// Payload of a mint order: which request, and the token metadata to attach.
#[derive(Clone, Debug)]
pub struct MessageMint {
    pub request_id: String,
    pub token_metadata: String,
}

/// Payload of a lock order (reserved; intake submits locks directly).
#[derive(Clone, Debug)]
pub struct MessageNewRequest {
    pub token_contract: String,
    pub token_owner: String,
    pub token_id: String,
    pub request_id: String,
}

} // verus!
