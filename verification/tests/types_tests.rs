//! The data model: status ladder, request construction, the durable
//! mutations, and the api input conversions.

use bridge_relayer::db::Database;
use bridge_relayer::registry::completed_requests;
use bridge_relayer::types::{
    BRequest, Chains, EVMInputRequest, Function, InputRequest, MessageMint, MessageNewRequest,
    OutputResult, SolanaInputRequest, Status, TxMessage,
};

fn setup_test_db() -> Database {
    Database::open().unwrap()
}

fn create_test_input_request() -> InputRequest {
    InputRequest {
        contract_or_mint: "0xabc123".to_string(),
        token_id: "42".to_string(),
        token_owner: "0xowner456".to_string(),
        origin_network: Chains::EVM,
        destination_account: "0xdestination789".to_string(),
    }
}

#[test]
fn test_status_enum() {
    assert_ne!(Status::RequestReceived, Status::TokenReceived);
    assert_ne!(Status::TokenReceived, Status::TokenMinted);
    assert_ne!(Status::TokenMinted, Status::Completed);
    assert_ne!(Status::Completed, Status::Canceled);
}

#[test]
fn test_chains_enum() {
    assert_ne!(Chains::EVM, Chains::SOLANA);
}

#[test]
fn test_brequest_new() {
    let input = create_test_input_request();
    let request = BRequest::new(input.clone());

    assert_eq!(request.status, Status::RequestReceived);
    assert_eq!(request.input, input);
    assert!(request.tx_hashes.is_empty());
    assert_eq!(request.output, OutputResult::default());

    let expected_id =
        BRequest::generate_id(&input.contract_or_mint, &input.token_id, &input.token_owner);
    assert_eq!(request.id, expected_id);
}

#[test]
fn test_brequest_generate_id() {
    let id1 = BRequest::generate_id("contract1", "token1", "owner1");
    let id2 = BRequest::generate_id("contract1", "token1", "owner1");
    let id3 = BRequest::generate_id("contract2", "token1", "owner1");

    assert_eq!(id1, id2);
    assert_ne!(id1, id3);
}

#[test]
fn test_generate_id_known_digest() {
    // The id of three empty parts is the digest of the empty byte string.
    let id = BRequest::generate_id("", "", "");
    assert_eq!(
        id,
        "0xc5d2460186f7233c927e7db2dcc703c0e500b653ca82273b7bfad8045d85a470"
    );
    assert_eq!(id.len(), 66);
}

#[test]
fn test_brequest_update_state() {
    let mut db = setup_test_db();
    let input = create_test_input_request();
    let mut request = BRequest::new(input);

    assert_eq!(request.status, Status::RequestReceived);

    request.update_state(&mut db).unwrap();
    assert_eq!(request.status, Status::TokenReceived);

    request.update_state(&mut db).unwrap();
    assert_eq!(request.status, Status::TokenMinted);

    request.update_state(&mut db).unwrap();
    assert_eq!(request.status, Status::Completed);

    // State should not change after Completed.
    request.update_state(&mut db).unwrap();
    assert_eq!(request.status, Status::Completed);

    let retrieved: BRequest = bridge_relayer::registry::request_data(&request.id, &db)
        .unwrap()
        .unwrap();
    assert_eq!(retrieved.status, Status::Completed);
}

#[test]
fn test_brequest_cancel() {
    let mut db = setup_test_db();
    let input = create_test_input_request();
    let mut request = BRequest::new(input);

    assert_eq!(request.status, Status::RequestReceived);

    request.cancel(&mut db).unwrap();
    assert_eq!(request.status, Status::Canceled);

    let retrieved: BRequest = bridge_relayer::registry::request_data(&request.id, &db)
        .unwrap()
        .unwrap();
    assert_eq!(retrieved.status, Status::Canceled);
}

#[test]
fn test_brequest_finalize() {
    let mut db = setup_test_db();
    let input = create_test_input_request();
    let mut request = BRequest::new(input);

    assert_eq!(request.status, Status::RequestReceived);

    let token_contract = "0xfinalcontract";
    let token_id = "999";
    request.finalize(&mut db, token_contract, token_id).unwrap();

    assert_eq!(request.status, Status::Completed);
    assert_eq!(request.output.detination_contract_id_or_mint, token_contract);
    assert_eq!(request.output.detination_token_id_or_account, token_id);

    let retrieved: BRequest = bridge_relayer::registry::request_data(&request.id, &db)
        .unwrap()
        .unwrap();
    assert_eq!(retrieved.status, Status::Completed);
    assert_eq!(
        retrieved.output.detination_contract_id_or_mint,
        token_contract
    );
    assert_eq!(retrieved.output.detination_token_id_or_account, token_id);

    let completed = completed_requests(&db).unwrap();
    assert!(completed.contains(&request.id));
}

#[test]
fn test_brequest_finalize_twice_same_record() {
    // Finalizing again rewrites the same record, timestamps aside, and the
    // completed list gains the id only once.
    let mut db = setup_test_db();
    let mut request = BRequest::new(create_test_input_request());

    request.finalize(&mut db, "0xfinalcontract", "999").unwrap();
    let first = request.clone();
    let completed_once = completed_requests(&db).unwrap();

    request.finalize(&mut db, "0xfinalcontract", "999").unwrap();
    assert_eq!(request.id, first.id);
    assert_eq!(request.status, first.status);
    assert_eq!(request.input, first.input);
    assert_eq!(request.tx_hashes, first.tx_hashes);
    assert_eq!(request.output, first.output);

    let completed_twice = completed_requests(&db).unwrap();
    assert_eq!(completed_once, completed_twice);
    assert_eq!(completed_twice.len(), 1);
}

#[test]
fn test_brequest_add_tx() {
    let mut db = setup_test_db();
    let input = create_test_input_request();
    let mut request = BRequest::new(input);

    assert!(request.tx_hashes.is_empty());

    let tx_hash = "0xtx123";
    request.add_tx(tx_hash, &mut db).unwrap();
    assert_eq!(request.tx_hashes.len(), 1);
    assert_eq!(request.tx_hashes[0], tx_hash);

    let tx_hash2 = "0xtx456";
    request.add_tx(tx_hash2, &mut db).unwrap();
    assert_eq!(request.tx_hashes.len(), 2);
    assert_eq!(request.tx_hashes[0], tx_hash);
    assert_eq!(request.tx_hashes[1], tx_hash2);

    let retrieved: BRequest = bridge_relayer::registry::request_data(&request.id, &db)
        .unwrap()
        .unwrap();
    assert_eq!(retrieved.tx_hashes.len(), 2);
    assert_eq!(retrieved.tx_hashes[0], tx_hash);
    assert_eq!(retrieved.tx_hashes[1], tx_hash2);
}

#[test]
fn test_solana_input_request_conversion() {
    let solana_input = SolanaInputRequest {
        token_mint: "mint123".to_string(),
        token_account: "account456".to_string(),
        origin_network: Chains::SOLANA,
        destination_account: "dest789".to_string(),
    };

    let input_request: InputRequest = solana_input.clone().into();

    assert_eq!(input_request.contract_or_mint, solana_input.token_mint);
    assert_eq!(input_request.token_id, "");
    assert_eq!(input_request.token_owner, solana_input.token_account);
    assert_eq!(input_request.origin_network, solana_input.origin_network);
    assert_eq!(
        input_request.destination_account,
        solana_input.destination_account
    );
}

#[test]
fn test_evm_input_request_conversion() {
    let evm_input = EVMInputRequest {
        token_contract: "contract123".to_string(),
        token_id: "token456".to_string(),
        token_owner: "owner789".to_string(),
        origin_network: Chains::EVM,
        destination_account: "dest012".to_string(),
    };

    let input_request: InputRequest = evm_input.clone().into();

    assert_eq!(input_request.contract_or_mint, evm_input.token_contract);
    assert_eq!(input_request.token_id, evm_input.token_id);
    assert_eq!(input_request.token_owner, evm_input.token_owner);
    assert_eq!(input_request.origin_network, evm_input.origin_network);
    assert_eq!(
        input_request.destination_account,
        evm_input.destination_account
    );
}

#[test]
fn test_tx_message_types() {
    let mint_data = MessageMint {
        request_id: "request123".to_string(),
        token_metadata: "metadata456".to_string(),
    };

    let request_data = MessageNewRequest {
        token_contract: "contract123".to_string(),
        token_owner: "owner456".to_string(),
        token_id: "token789".to_string(),
        request_id: "request123".to_string(),
    };

    let tx_message_mint = TxMessage {
        accion: Function::Mint,
        mint_data: Some(mint_data.clone()),
        request_data: None,
    };

    let tx_message_request = TxMessage {
        accion: Function::NewRequest,
        mint_data: None,
        request_data: Some(request_data.clone()),
    };

    match tx_message_mint.accion {
        Function::Mint => {
            let mint_data = tx_message_mint.mint_data.unwrap();
            assert_eq!(mint_data.request_id, "request123");
            assert_eq!(mint_data.token_metadata, "metadata456");
        }
        _ => panic!("Expected Mint function"),
    }

    match tx_message_request.accion {
        Function::NewRequest => {
            let request_data = tx_message_request.request_data.unwrap();
            assert_eq!(request_data.token_contract, "contract123");
            assert_eq!(request_data.token_owner, "owner456");
            assert_eq!(request_data.token_id, "token789");
            assert_eq!(request_data.request_id, "request123");
        }
        _ => panic!("Expected NewRequest function"),
    }
}
