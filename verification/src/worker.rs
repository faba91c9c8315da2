//! The transaction workers' logic: what a queued message asks for, the gas
//! fee floor, the destination identifiers a mint derives, and the
//! bookkeeping that follows a successful mint transaction.

use vstd::bytes::{spec_u64_to_le_bytes, u64_to_le_bytes};
use vstd::prelude::*;
use vstd::slice::slice_to_vec;
use vstd::string::StringSliceAdditionalSpecFns;
use vstd::string::StrSliceExecFns;

use crate::chain::{
    base58_decoded, be_nat_of, bs58_decode, dec_digits_of, find_program_address,
    lemma_dec_digits_nonempty, pda_of, u256_decimal_from_be,
};
use crate::codec::spec_enc_brequest;
use crate::db::{
    lemma_reserved_keys_distinct, spec_completed_key, spec_pending_index_key, spec_pending_key,
    Database,
};
use crate::errors::DbError;
use crate::text::{parse_u64_dec, spec_parse_u64};
use crate::registry::{
    completed_list_at, index_at, pending_list_at, request_at, spec_add_completed,
};
use crate::types::{
    BRequest, Function, MessageMint, MessageNewRequest, Status, TxMessage,
};

verus! {

/// What a worker does with one queued message.
pub enum MessagePlan {
    Mint(MessageMint),
    Lock(MessageNewRequest),
    Nothing,
}

/// Dispatch a queued message: a mint order must carry mint data, a lock
/// order must carry request data; anything else is dropped.
pub fn plan_message(msg: TxMessage) -> (r: MessagePlan)
    ensures
        match r {
            MessagePlan::Mint(m) => msg.accion is Mint && msg.mint_data == Some(m),
            MessagePlan::Lock(d) => msg.accion is NewRequest && msg.request_data == Some(d),
            MessagePlan::Nothing => (msg.accion is Mint && msg.mint_data is None) || (
            msg.accion is NewRequest && msg.request_data is None),
        },
{
    match msg.accion {
        Function::Mint => match msg.mint_data {
            Some(m) => MessagePlan::Mint(m),
            None => MessagePlan::Nothing,
        },
        Function::NewRequest => match msg.request_data {
            Some(d) => MessagePlan::Lock(d),
            None => MessagePlan::Nothing,
        },
    }
}

/// The hardcoded EVM fee floor, in wei: 3 Gwei.
pub const FEE_FLOOR: u128 = 3000000000;

/// The EVM gas limit of a lock transaction.
pub const GAS_LIMIT_LOCK: u64 = 100000;

/// The EVM gas limit of a mint transaction.
pub const GAS_LIMIT_MINT: u64 = 200000;

/// The gas limit an EVM transaction is submitted with, by what it does.
pub fn gas_limit(action: &Function) -> (r: u64)
    ensures
        r == (match action {
            Function::Mint => GAS_LIMIT_MINT,
            Function::NewRequest => GAS_LIMIT_LOCK,
        }),
{
    match action {
        Function::Mint => GAS_LIMIT_MINT,
        Function::NewRequest => GAS_LIMIT_LOCK,
    }
}

/// The EIP-1559 fees to submit with: estimated fees pass through, except the
/// testnet idle sentinel (both estimates exactly 1), which takes the floor.
pub fn effective_fees(max_fee_per_gas: u128, max_priority_fee_per_gas: u128) -> (r: (u128, u128))
    ensures
        r == (if max_fee_per_gas == 1 && max_priority_fee_per_gas == 1 {
            (FEE_FLOOR, FEE_FLOOR)
        } else {
            (max_fee_per_gas, max_priority_fee_per_gas)
        }),
{
    if max_fee_per_gas == 1 && max_priority_fee_per_gas == 1 {
        (FEE_FLOOR, FEE_FLOOR)
    } else {
        (max_fee_per_gas, max_priority_fee_per_gas)
    }
}

/// Record a successful mint transaction: append its hash, advance a request
/// still in `TokenReceived` one step, and finalize with the destination
/// identifiers.  The destination event listener will later observe the mint
/// event; completion here makes that observation a no-op.  A canceled
/// request is absorbed: no mint result may complete it.
pub fn record_mint_success(
    request: &mut BRequest,
    db: &mut Database,
    tx_hash: &str,
    dst_contract: &str,
    dst_token: &str,
) -> (r: Result<(), DbError>)
    requires
        old(request).status != Status::Canceled,
        dst_contract@.len() > 0,
        dst_token@.len() > 0,
        old(request).id@ != spec_pending_key(),
        old(request).id@ != spec_pending_index_key(),
        old(request).id@ != spec_completed_key(),
        completed_list_at(old(db)@) matches Some(l) ==> l.len() < u64::MAX,
    ensures
        r is Ok,
        final(request).id == old(request).id,
        final(request).status == Status::Completed,
        final(request).input == old(request).input,
        final(request).tx_hashes.deep_view() == old(request).tx_hashes.deep_view().push(tx_hash@),
        final(request).output.detination_contract_id_or_mint@ == dst_contract@,
        final(request).output.detination_token_id_or_account@ == dst_token@,
        request_at(final(db)@, old(request).id@) == Some(final(request)@),
        pending_list_at(final(db)@) == pending_list_at(old(db)@),
        index_at(final(db)@) == index_at(old(db)@),
        completed_list_at(final(db)@) == Some(
            spec_add_completed(completed_list_at(old(db)@), old(request).id@),
        ),
{
    let ghost id = request.id@;
    let id_len = request.id.unicode_len();
    proof {
        if old(db)@.contains_key(spec_completed_key()) {
            crate::codec::lemma_decode_str_list_fits(old(db)@[spec_completed_key()]);
        }
    }
    let _ = request.add_tx(tx_hash, db);
    if request.status == Status::TokenReceived {
        let _ = request.update_state(db);
    }
    let _ = request.finalize(db, dst_contract, dst_token);
    proof {
        lemma_reserved_keys_distinct();
        crate::codec::lemma_request_round_trip(request@);
        let enc = spec_enc_brequest(request@);
        assert(final(db)@[id] == enc);
        let mid = completed_list_at(old(db)@);
        assert(completed_list_at(final(db)@) == Some(spec_add_completed(mid, id))) by {
            assert(crate::codec::str_seq_fits(spec_add_completed(mid, id))) by {
                assert(id.len() == id_len);
                match mid {
                    Some(l) => {
                        if !l.contains(id) {
                            assert forall|i: int|
                                0 <= i < l.push(id).len() implies crate::codec::str_fits(
                                #[trigger] l.push(id)[i],
                            ) by {
                                if i < l.len() {
                                    assert(l.push(id)[i] == l[i]);
                                }
                            }
                        }
                    },
                    None => {},
                }
            }
            crate::codec::lemma_str_list_round_trip(spec_add_completed(mid, id));
            assert(spec_add_completed(mid, id) == spec_add_completed(
                completed_list_at(old(db)@.insert(id, enc)),
                id,
            )) by {
                assert(completed_list_at(old(db)@.insert(id, enc)) == mid);
            }
        }
    }
    Ok(())
}

/// The seed tag of the bridge program's mint accounts.
pub open spec fn spec_mint_tag() -> Seq<u8> {
    seq![109u8, 105u8, 110u8, 116u8]
}

/// The seeds an EVM-origin token's Solana mint is derived from: the tag
/// "mint", the contract string's bytes split in half, and the token id as
/// eight little-endian bytes.
pub open spec fn spec_mint_seeds(c: Seq<u8>, token_id: u64) -> Seq<Seq<u8>> {
    seq![
        spec_mint_tag(),
        c.take(c.len() as int / 2),
        c.skip(c.len() as int / 2),
        spec_u64_to_le_bytes(token_id),
    ]
}

/// Build the mint derivation seeds for an EVM-origin token.
pub fn mint_pda_seeds(contract: &str, token_id: u64) -> (r: Vec<Vec<u8>>)
    ensures
        r.deep_view() == spec_mint_seeds(contract.spec_bytes(), token_id),
{
    let cb = contract.as_bytes();
    let mid = cb.len() / 2;
    let mut seeds: Vec<Vec<u8>> = Vec::new();
    let mut tag: Vec<u8> = Vec::new();
    tag.push(109);
    tag.push(105);
    tag.push(110);
    tag.push(116);
    proof {
        assert(tag@ =~= spec_mint_tag());
    }
    seeds.push(tag);
    seeds.push(slice_to_vec(vstd::slice::slice_subrange(cb, 0, mid)));
    seeds.push(slice_to_vec(vstd::slice::slice_subrange(cb, mid, cb.len())));
    seeds.push(u64_to_le_bytes(token_id));
    proof {
        assert(seeds.deep_view() =~~= spec_mint_seeds(contract.spec_bytes(), token_id));
    }
    seeds
}

/// The Solana mint address of an EVM-origin token: the program-derived
/// address of [`spec_mint_seeds`] under the bridge program, part of the
/// bridge's external ABI.
pub fn solana_mint_address(contract: &str, token_id: u64, bridge_program: &Vec<u8>) -> (r: Option<
    Vec<u8>,
>)
    requires
        bridge_program@.len() == 32,
    ensures
        match r {
            Some(v) => pda_of(spec_mint_seeds(contract.spec_bytes(), token_id), bridge_program@)
                == Some(v@) && v@.len() == 32,
            None => pda_of(
                spec_mint_seeds(contract.spec_bytes(), token_id),
                bridge_program@,
            ) is None,
        },
{
    let seeds = mint_pda_seeds(contract, token_id);
    find_program_address(&seeds, bridge_program)
}

/// The associated token account of a wallet for a mint: the program-derived
/// address of (wallet, token program, mint) under the associated-token
/// program.
pub fn associated_token_account(
    wallet: &Vec<u8>,
    token_program: &Vec<u8>,
    mint: &Vec<u8>,
    ata_program: &Vec<u8>,
) -> (r: Option<Vec<u8>>)
    requires
        ata_program@.len() == 32,
    ensures
        match r {
            Some(v) => pda_of(seq![wallet@, token_program@, mint@], ata_program@) == Some(v@)
                && v@.len() == 32,
            None => pda_of(seq![wallet@, token_program@, mint@], ata_program@) is None,
        },
{
    let mut seeds: Vec<Vec<u8>> = Vec::new();
    seeds.push(wallet.clone());
    seeds.push(token_program.clone());
    seeds.push(mint.clone());
    proof {
        assert(seeds.deep_view() =~~= seq![wallet@, token_program@, mint@]);
    }
    find_program_address(&seeds, ata_program)
}

/// The EVM token id that stands for a Solana mint: the base58-decoded bytes
/// of the mint address read as a big-endian number, in decimal.  Nothing is
/// returned for a string that is no base58, or decodes beyond 32 bytes.
pub fn evm_mint_token_id(mint_account: &str) -> (r: Option<String>)
    ensures
        match r {
            Some(s) => base58_decoded(mint_account@) matches Some(b) && b.len() <= 32 && s@
                == dec_digits_of(be_nat_of(b)) && s@.len() > 0,
            None => match base58_decoded(mint_account@) {
                Some(b) => b.len() > 32,
                None => true,
            },
        },
{
    match bs58_decode(mint_account) {
        Some(decoded) => {
            if decoded.len() <= 32 {
                let s = u256_decimal_from_be(&decoded);
                proof {
                    lemma_dec_digits_nonempty(be_nat_of(decoded@));
                }
                Some(s)
            } else {
                None
            }
        },
        None => None,
    }
}

/// The Solana mint an EVM-origin request derives: its token id read as a
/// decimal number, then the program-derived address of the mint seeds.
pub fn solana_mint_for_request(contract: &str, token_id: &str, bridge_program: &Vec<u8>) -> (r:
    Option<Vec<u8>>)
    requires
        bridge_program@.len() == 32,
    ensures
        match spec_parse_u64(token_id@) {
            Some(t) => match r {
                Some(v) => pda_of(spec_mint_seeds(contract.spec_bytes(), t), bridge_program@)
                    == Some(v@) && v@.len() == 32,
                None => pda_of(spec_mint_seeds(contract.spec_bytes(), t), bridge_program@) is None,
            },
            None => r is None,
        },
{
    match parse_u64_dec(token_id) {
        Some(t) => solana_mint_address(contract, t, bridge_program),
        None => None,
    }
}

/// The destination identifiers a Solana mint writes into a finalized
/// EVM-origin record: the derived mint address and the destination account's
/// associated token account for it, both rendered base58.
pub fn solana_mint_outputs(
    contract: &str,
    token_id: &str,
    destination: &Vec<u8>,
    bridge_program: &Vec<u8>,
    token_program: &Vec<u8>,
    ata_program: &Vec<u8>,
) -> (r: Option<(String, String)>)
    requires
        bridge_program@.len() == 32,
        ata_program@.len() == 32,
    ensures
        r matches Some(ids) ==> ({
            &&& spec_parse_u64(token_id@) matches Some(t)
            &&& pda_of(
                spec_mint_seeds(contract.spec_bytes(), spec_parse_u64(token_id@)->0),
                bridge_program@,
            ) matches Some(mint)
            &&& ids.0@ == crate::chain::base58_of(
                pda_of(
                    spec_mint_seeds(contract.spec_bytes(), spec_parse_u64(token_id@)->0),
                    bridge_program@,
                )->0,
            )
            &&& pda_of(
                seq![
                    destination@,
                    token_program@,
                    pda_of(
                        spec_mint_seeds(contract.spec_bytes(), spec_parse_u64(token_id@)->0),
                        bridge_program@,
                    )->0,
                ],
                ata_program@,
            ) matches Some(acct)
            &&& ids.1@ == crate::chain::base58_of(
                pda_of(
                    seq![
                        destination@,
                        token_program@,
                        pda_of(
                            spec_mint_seeds(contract.spec_bytes(), spec_parse_u64(token_id@)->0),
                            bridge_program@,
                        )->0,
                    ],
                    ata_program@,
                )->0,
            )
        }),
        r is None ==> (spec_parse_u64(token_id@) is None || pda_of(
            spec_mint_seeds(contract.spec_bytes(), spec_parse_u64(token_id@)->0),
            bridge_program@,
        ) is None || pda_of(
            seq![
                destination@,
                token_program@,
                pda_of(
                    spec_mint_seeds(contract.spec_bytes(), spec_parse_u64(token_id@)->0),
                    bridge_program@,
                )->0,
            ],
            ata_program@,
        ) is None),
{
    let mint = match solana_mint_for_request(contract, token_id, bridge_program) {
        Some(m) => m,
        None => {
            return None;
        },
    };
    let account = match associated_token_account(destination, token_program, &mint, ata_program) {
        Some(a) => a,
        None => {
            return None;
        },
    };
    Some((crate::chain::bs58_encode(&mint), crate::chain::bs58_encode(&account)))
}

} // verus!
