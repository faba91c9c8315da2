//! Intake, event decoding, worker bookkeeping and recovery decisions.

use base64::prelude::BASE64_STANDARD;
use base64::Engine;

use bridge_relayer::chain::{bs58_encode, parse_evm_address, parse_solana_pubkey};
use bridge_relayer::db::Database;
use bridge_relayer::endpoints::{
    already_existing_request, get_completed_requests, get_pending_requests, get_request,
    prepare_request, register_request,
};
use bridge_relayer::errors::RequestError;
use bridge_relayer::events::{
    apply_token_minted_event, bytes_eq, decode_event, handle_ownership_check, mint_message,
    OwnershipOutcome,
};
use bridge_relayer::recovery::{
    destination_check_outcome, recovery_action, should_cancel_recovery_error, str_contains,
    sweep_terminal_pending, DestinationVerdict, RecoveryAction,
};
use bridge_relayer::registry::request_data;
use bridge_relayer::types::{BRequest, Chains, Function, InputRequest, Status, TxMessage};
use bridge_relayer::text::parse_u64_dec;
use bridge_relayer::worker::{
    associated_token_account, effective_fees, evm_mint_token_id, plan_message, record_mint_success,
    gas_limit, solana_mint_address, solana_mint_for_request, solana_mint_outputs, MessagePlan,
    FEE_FLOOR, GAS_LIMIT_LOCK, GAS_LIMIT_MINT,
};

fn setup_test_db() -> Database {
    Database::open().unwrap()
}

// A valid base58 pubkey: 32 zero bytes.
const ZERO_PUBKEY: &str = "11111111111111111111111111111111";
const EVM_ADDRESS: &str = "0x00000000000000000000000000000000000000aa";

fn evm_origin_input(token_id: &str, destination: &str) -> InputRequest {
    InputRequest {
        contract_or_mint: "0xabc123".to_string(),
        token_id: token_id.to_string(),
        token_owner: "0xowner456".to_string(),
        origin_network: Chains::EVM,
        destination_account: destination.to_string(),
    }
}

#[test]
fn test_prepare_request_happy_path() {
    let db = setup_test_db();
    let input = evm_origin_input("7", ZERO_PUBKEY);
    let request = prepare_request(input.clone(), &db).unwrap();
    assert_eq!(request.status, Status::RequestReceived);
    assert_eq!(request.input, input);
    assert!(request.tx_hashes.is_empty());
    assert_eq!(
        request.id,
        BRequest::generate_id("0xabc123", "7", "0xowner456")
    );
}

#[test]
fn test_prepare_request_invalid_destination() {
    // An EVM-origin request whose destination is no Solana pubkey is refused,
    // and nothing is written.
    let db = setup_test_db();
    let input = evm_origin_input("7", "notapubkey!!");
    let id = BRequest::generate_id("0xabc123", "7", "0xowner456");
    let err = prepare_request(input, &db).unwrap_err();
    assert!(matches!(err, RequestError::InvalidDestinationAccount));
    assert!(request_data(&id, &db).unwrap().is_none());
    assert!(get_pending_requests(&db).is_none());
}

#[test]
fn test_prepare_request_duplicate_refused() {
    // Submitting the same triple while the first is in flight is refused.
    let mut db = setup_test_db();
    let input = evm_origin_input("7", ZERO_PUBKEY);
    let mut request = prepare_request(input.clone(), &db).unwrap();
    register_request(&mut request, "0xlock", &mut db).unwrap();

    let err = prepare_request(input, &db).unwrap_err();
    match err {
        RequestError::AlreadyExistingRequest(id) => assert_eq!(id, request.id),
        other => panic!("expected AlreadyExistingRequest, got {:?}", other),
    }
}

#[test]
fn test_intake_accepted_over_canceled_record() {
    // A canceled record under the same id does not block a re-bridge.
    let mut db = setup_test_db();
    let input = evm_origin_input("7", ZERO_PUBKEY);
    let mut first = prepare_request(input.clone(), &db).unwrap();
    register_request(&mut first, "0xlock", &mut db).unwrap();
    first.cancel(&mut db).unwrap();

    assert!(!already_existing_request(&first.id, &db));
    let second = prepare_request(input, &db).unwrap();
    assert_eq!(second.id, first.id);
    assert_eq!(second.status, Status::RequestReceived);
}

#[test]
fn test_intake_accepted_over_completed_record() {
    // A completed record under the same id does not block a re-bridge.
    let mut db = setup_test_db();
    let input = evm_origin_input("7", ZERO_PUBKEY);
    let mut first = prepare_request(input.clone(), &db).unwrap();
    register_request(&mut first, "0xlock", &mut db).unwrap();
    first.finalize(&mut db, "mint", "acct").unwrap();

    assert!(!already_existing_request(&first.id, &db));
    assert!(prepare_request(input, &db).is_ok());
}

#[test]
fn test_register_request_tracks_pending() {
    let mut db = setup_test_db();
    let mut request = prepare_request(evm_origin_input("7", ZERO_PUBKEY), &db).unwrap();
    register_request(&mut request, "0xlock", &mut db).unwrap();

    assert_eq!(request.tx_hashes, vec!["0xlock".to_string()]);
    let pending = get_pending_requests(&db).unwrap();
    assert_eq!(pending, vec![request.id.clone()]);
    let stored = get_request(&request.id, &db).unwrap().unwrap();
    assert_eq!(stored, request);
}

#[test]
fn test_get_request_unknown_id() {
    let db = setup_test_db();
    let err = get_request("missing", &db).unwrap_err();
    match err {
        RequestError::NoExistingRequest(id) => assert_eq!(id, "missing"),
        other => panic!("expected NoExistingRequest, got {:?}", other),
    }
}

#[test]
fn test_happy_path_evm_to_solana() {
    // Intake, lock, ownership check, mint, and the late mint event: the
    // status walks the whole ladder and the history holds both hashes.
    let mut db = setup_test_db();
    let mut request = prepare_request(evm_origin_input("7", ZERO_PUBKEY), &db).unwrap();
    register_request(&mut request, "0xlock", &mut db).unwrap();

    let outcome = handle_ownership_check(&request.id, &mut db, true).unwrap();
    assert!(matches!(outcome, OwnershipOutcome::Advanced));
    let mut stored = get_request(&request.id, &db).unwrap().unwrap();
    assert_eq!(stored.status, Status::TokenReceived);

    record_mint_success(&mut stored, &mut db, "0xmint", "DestMint", "DestAcct").unwrap();
    assert_eq!(stored.status, Status::Completed);
    assert_eq!(stored.tx_hashes.len(), 2);
    assert_eq!(stored.output.detination_contract_id_or_mint, "DestMint");
    assert_eq!(stored.output.detination_token_id_or_account, "DestAcct");
    let completed = get_completed_requests(&db).unwrap();
    assert!(completed.contains(&request.id));

    // The destination listener's later sighting is a safe no-op.
    let advanced = apply_token_minted_event(&request.id, "DestMint", "DestAcct", &mut db).unwrap();
    assert!(!advanced);
    let after = get_request(&request.id, &db).unwrap().unwrap();
    assert_eq!(after.status, Status::Completed);
}

#[test]
fn test_ownership_check_cancels_on_failure() {
    let mut db = setup_test_db();
    let mut request = prepare_request(evm_origin_input("7", ZERO_PUBKEY), &db).unwrap();
    register_request(&mut request, "0xlock", &mut db).unwrap();

    let outcome = handle_ownership_check(&request.id, &mut db, false).unwrap();
    assert!(matches!(outcome, OwnershipOutcome::Canceled));
    let stored = get_request(&request.id, &db).unwrap().unwrap();
    assert_eq!(stored.status, Status::Canceled);

    // A second check skips: the request is no longer freshly received.
    let outcome = handle_ownership_check(&request.id, &mut db, true).unwrap();
    assert!(matches!(outcome, OwnershipOutcome::Skipped));
}

#[test]
fn test_token_minted_event_completes_matching_request() {
    let mut db = setup_test_db();
    let mut request = prepare_request(evm_origin_input("7", ZERO_PUBKEY), &db).unwrap();
    register_request(&mut request, "0xlock", &mut db).unwrap();
    request.update_state(&mut db).unwrap();
    request.update_state(&mut db).unwrap();
    request.finalize(&mut db, "DestMint", "DestAcct").unwrap();

    // Re-stage the stored record at TokenMinted with the output set, as a
    // crash between mint and finalize leaves it.
    let mut staged = get_request(&request.id, &db).unwrap().unwrap();
    staged.status = Status::TokenMinted;
    bridge_relayer::registry::put_request(&staged, &mut db).unwrap();

    // A mismatching event does nothing.
    assert!(!apply_token_minted_event(&request.id, "Other", "DestAcct", &mut db).unwrap());
    // The matching event completes the request.
    assert!(apply_token_minted_event(&request.id, "DestMint", "DestAcct", &mut db).unwrap());
    let stored = get_request(&request.id, &db).unwrap().unwrap();
    assert_eq!(stored.status, Status::Completed);
}

#[test]
fn test_sweep_clears_finished_requests() {
    // After recovery's sweep, no completed or canceled id stays pending.
    let mut db = setup_test_db();
    let mut done = prepare_request(evm_origin_input("1", ZERO_PUBKEY), &db).unwrap();
    register_request(&mut done, "0xa", &mut db).unwrap();
    let mut live = prepare_request(evm_origin_input("2", ZERO_PUBKEY), &db).unwrap();
    register_request(&mut live, "0xb", &mut db).unwrap();
    let mut gone = prepare_request(evm_origin_input("3", ZERO_PUBKEY), &db).unwrap();
    register_request(&mut gone, "0xc", &mut db).unwrap();

    done.finalize(&mut db, "mint", "acct").unwrap();
    gone.cancel(&mut db).unwrap();

    sweep_terminal_pending(&mut db).unwrap();

    let pending = get_pending_requests(&db).unwrap();
    assert_eq!(pending, vec![live.id.clone()]);
}

#[test]
fn test_recovery_action_by_status() {
    let db = setup_test_db();
    let mut request = prepare_request(evm_origin_input("7", ZERO_PUBKEY), &db).unwrap();
    assert!(matches!(
        recovery_action(&request),
        RecoveryAction::VerifyOwnership
    ));

    request.status = Status::TokenReceived;
    assert!(matches!(
        recovery_action(&request),
        RecoveryAction::MintFromMetadata
    ));

    request.status = Status::TokenMinted;
    request.tx_hashes = vec!["0xlock".to_string(), "0xmint".to_string()];
    match recovery_action(&request) {
        RecoveryAction::CheckDestinationTx(tx) => assert_eq!(tx, "0xmint"),
        _ => panic!("expected CheckDestinationTx"),
    }

    request.status = Status::Completed;
    assert!(matches!(recovery_action(&request), RecoveryAction::Finish));
    request.status = Status::Canceled;
    assert!(matches!(recovery_action(&request), RecoveryAction::Finish));
}

#[test]
fn test_should_cancel_recovery_error() {
    assert!(should_cancel_recovery_error(
        "transport: sender address already in use by a prior request"
    ));
    assert!(!should_cancel_recovery_error("address rejected"));
    assert!(!should_cancel_recovery_error("slot already in use"));
    assert!(!should_cancel_recovery_error("timeout"));
}

#[test]
fn test_str_contains() {
    assert!(str_contains("hello world", "lo w"));
    assert!(str_contains("abc", ""));
    assert!(!str_contains("abc", "abd"));
    assert!(!str_contains("ab", "abc"));
}

#[test]
fn test_plan_message_dispatch() {
    let mint = mint_message("request123", "metadata456");
    match plan_message(mint) {
        MessagePlan::Mint(m) => {
            assert_eq!(m.request_id, "request123");
            assert_eq!(m.token_metadata, "metadata456");
        }
        _ => panic!("expected a mint plan"),
    }

    let empty = TxMessage {
        accion: Function::Mint,
        mint_data: None,
        request_data: None,
    };
    assert!(matches!(plan_message(empty), MessagePlan::Nothing));
}

#[test]
fn test_effective_fees_sentinel() {
    assert_eq!(effective_fees(1, 1), (FEE_FLOOR, FEE_FLOOR));
    assert_eq!(effective_fees(1, 2), (1, 2));
    assert_eq!(effective_fees(5, 7), (5, 7));
}

#[test]
fn test_evm_mint_token_id_from_base58() {
    // The 32-zero-byte mint reads as the number zero; "2" decodes to the
    // single byte 1.
    assert_eq!(evm_mint_token_id(ZERO_PUBKEY).unwrap(), "0");
    assert_eq!(evm_mint_token_id("2").unwrap(), "1");
    assert!(evm_mint_token_id("0invalid").is_none());
}

#[test]
fn test_address_validators() {
    assert!(parse_evm_address(EVM_ADDRESS));
    assert!(parse_evm_address(
        "00000000000000000000000000000000000000aa"
    ));
    assert!(!parse_evm_address("0xzz"));
    assert!(!parse_evm_address(ZERO_PUBKEY));

    assert!(parse_solana_pubkey(ZERO_PUBKEY));
    assert!(!parse_solana_pubkey("notapubkey!!"));
    assert!(!parse_solana_pubkey(EVM_ADDRESS));
}

#[test]
fn test_decode_event_round_trip() {
    // Build a log line the way the bridge program emits it: the prefix, then
    // base64 of discriminator, two addresses, a length byte, the id, padding.
    let disc: Vec<u8> = vec![1, 2, 3, 4, 5, 6, 7, 8];
    let mint: Vec<u8> = vec![0xaa; 32];
    let account: Vec<u8> = vec![0xbb; 32];
    let id = b"req-42";
    let mut payload = Vec::new();
    payload.extend_from_slice(&disc);
    payload.extend_from_slice(&mint);
    payload.extend_from_slice(&account);
    payload.push(id.len() as u8);
    payload.extend_from_slice(id);
    payload.extend_from_slice(&[0, 0, 0]);

    let log = format!("Program data: {}", BASE64_STANDARD.encode(&payload));
    let event = decode_event(&log).unwrap();
    assert!(bytes_eq(&event.discriminator, &disc));
    assert!(bytes_eq(&event.mint, &mint));
    assert!(bytes_eq(&event.token_account, &account));
    assert_eq!(event.request_id, "req-42");

    assert!(decode_event("Program log: something else").is_none());
    assert!(decode_event("Program data: !!!notbase64!!!").is_none());
    assert!(decode_event("Program data: AAEC").is_none());
}

#[test]
fn test_solana_mint_address_matches_derivation() {
    // The library's derivation agrees with the program-derived address
    // computed directly, and depends on the token id.
    let program_bytes: Vec<u8> = vec![7; 32];
    let derived = solana_mint_address("0xabc123", 7, &program_bytes).unwrap();
    assert_eq!(derived.len(), 32);

    let program = solana_pubkey::Pubkey::try_from(program_bytes.as_slice()).unwrap();
    let contract = "0xabc123";
    let (c1, c2) = contract.split_at(contract.len() / 2);
    let (expected, _bump) = solana_pubkey::Pubkey::find_program_address(
        &[b"mint", c1.as_bytes(), c2.as_bytes(), &7u64.to_le_bytes()],
        &program,
    );
    assert_eq!(derived, expected.to_bytes().to_vec());

    let other = solana_mint_address("0xabc123", 8, &program_bytes).unwrap();
    assert_ne!(derived, other);
}

#[test]
fn test_associated_token_account_matches_derivation() {
    let wallet: Vec<u8> = vec![1; 32];
    let token_program: Vec<u8> = vec![2; 32];
    let mint: Vec<u8> = vec![3; 32];
    let ata_program: Vec<u8> = vec![4; 32];
    let derived = associated_token_account(&wallet, &token_program, &mint, &ata_program).unwrap();

    let program = solana_pubkey::Pubkey::try_from(ata_program.as_slice()).unwrap();
    let (expected, _bump) = solana_pubkey::Pubkey::find_program_address(
        &[&wallet, &token_program, &mint],
        &program,
    );
    assert_eq!(derived, expected.to_bytes().to_vec());
}

#[test]
fn test_bs58_encode_round_trip() {
    let encoded = bs58_encode(&vec![0u8; 32]);
    assert_eq!(encoded, ZERO_PUBKEY);
    assert_eq!(bs58_encode(&vec![1u8]), "2");
}

#[test]
fn test_parse_u64_dec() {
    assert_eq!(parse_u64_dec("0"), Some(0));
    assert_eq!(parse_u64_dec("42"), Some(42));
    assert_eq!(parse_u64_dec("18446744073709551615"), Some(u64::MAX));
    assert_eq!(parse_u64_dec("18446744073709551616"), None);
    assert_eq!(parse_u64_dec(""), None);
    assert_eq!(parse_u64_dec("12a"), None);
    assert_eq!(parse_u64_dec("-1"), None);
}

#[test]
fn test_solana_mint_for_request_parses_token_id() {
    let program: Vec<u8> = vec![7; 32];
    assert_eq!(
        solana_mint_for_request("0xabc123", "7", &program),
        solana_mint_address("0xabc123", 7, &program)
    );
    assert!(solana_mint_for_request("0xabc123", "seven", &program).is_none());
}

#[test]
fn test_solana_mint_outputs_renders_base58() {
    let destination: Vec<u8> = vec![9; 32];
    let bridge_program: Vec<u8> = vec![7; 32];
    let token_program: Vec<u8> = vec![2; 32];
    let ata_program: Vec<u8> = vec![4; 32];
    let (mint_str, acct_str) = solana_mint_outputs(
        "0xabc123",
        "7",
        &destination,
        &bridge_program,
        &token_program,
        &ata_program,
    )
    .unwrap();

    let mint = solana_mint_address("0xabc123", 7, &bridge_program).unwrap();
    let acct =
        associated_token_account(&destination, &token_program, &mint, &ata_program).unwrap();
    assert_eq!(mint_str, bs58_encode(&mint));
    assert_eq!(acct_str, bs58_encode(&acct));
    assert!(!mint_str.is_empty());
    assert_ne!(mint_str, acct_str);
}

#[test]
fn test_destination_check_outcome() {
    // Spec scenario: a found mint transaction with readable metadata
    // completes; a missing transaction or unreadable metadata re-mints.
    assert!(matches!(
        destination_check_outcome(true, true),
        DestinationVerdict::Complete
    ));
    assert!(matches!(
        destination_check_outcome(false, true),
        DestinationVerdict::Remint
    ));
    assert!(matches!(
        destination_check_outcome(true, false),
        DestinationVerdict::Remint
    ));
    assert!(matches!(
        destination_check_outcome(false, false),
        DestinationVerdict::Remint
    ));
}

#[test]
fn test_last_update_never_decreases() {
    let mut db = setup_test_db();
    let mut request = prepare_request(evm_origin_input("7", ZERO_PUBKEY), &db).unwrap();
    let mut previous = request.last_update;
    for _ in 0..3 {
        request.update_state(&mut db).unwrap();
        let now = request.last_update;
        assert!(previous.secs < now.secs || (previous.secs == now.secs && previous.nanos <= now.nanos));
        previous = now;
    }
    request.finalize(&mut db, "mint", "acct").unwrap();
    let now = request.last_update;
    assert!(previous.secs < now.secs || (previous.secs == now.secs && previous.nanos <= now.nanos));
}

#[test]
fn test_gas_limits() {
    assert_eq!(gas_limit(&Function::NewRequest), GAS_LIMIT_LOCK);
    assert_eq!(gas_limit(&Function::Mint), GAS_LIMIT_MINT);
    assert_eq!(GAS_LIMIT_LOCK, 100000);
    assert_eq!(GAS_LIMIT_MINT, 200000);
}
