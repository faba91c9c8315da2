//! The store, the codec, and the pending/completed collections.

use bridge_relayer::codec::{
    decode_index, decode_request, decode_str_list, encode_index, encode_request, encode_str_list,
};
use bridge_relayer::db::{completed_key, pending_key, Database};
use bridge_relayer::errors::DbError;
use bridge_relayer::pending::{
    add_pending_request, get_pending_request_and_index, remove_pending_request,
};
use bridge_relayer::registry::{
    add_completed_request, completed_requests, pending_requests, put_request, request_data,
    update_hashmap, update_vector,
};
use bridge_relayer::types::{BRequest, Chains, InputRequest};

fn setup_test_db() -> Database {
    Database::open().unwrap()
}

fn sample_request(token_id: &str) -> BRequest {
    BRequest::new(InputRequest {
        contract_or_mint: "0xabc123".to_string(),
        token_id: token_id.to_string(),
        token_owner: "0xowner456".to_string(),
        origin_network: Chains::EVM,
        destination_account: "0xdestination789".to_string(),
    })
}

#[test]
fn test_database_open() {
    let db = Database::open();
    assert!(db.is_ok());
}

#[test]
fn test_write_and_read_value() {
    let mut db = setup_test_db();

    let test_data: Vec<u8> = vec![42];
    db.write_value("test_key", test_data.clone()).unwrap();

    let read_data = db.read("test_key").unwrap().unwrap();
    assert_eq!(read_data, test_data);
}

#[test]
fn test_read_nonexistent_key() {
    let db = setup_test_db();

    let result = db.read("nonexistent_key").unwrap();
    assert!(result.is_none());
}

#[test]
fn test_write_multiple_values() {
    let mut db = setup_test_db();

    let test_data1: Vec<u8> = vec![42];
    let test_data2: Vec<u8> = vec![84];

    db.write_value("test_key1", test_data1.clone()).unwrap();
    db.write_value("test_key2", test_data2.clone()).unwrap();

    let read_data1 = db.read("test_key1").unwrap().unwrap();
    let read_data2 = db.read("test_key2").unwrap().unwrap();

    assert_eq!(read_data1, test_data1);
    assert_eq!(read_data2, test_data2);
}

#[test]
fn test_overwrite_value() {
    let mut db = setup_test_db();

    let test_data1: Vec<u8> = vec![42];
    let test_data2: Vec<u8> = vec![84];

    db.write_value("test_key", test_data1).unwrap();
    db.write_value("test_key", test_data2.clone()).unwrap();

    let read_data = db.read("test_key").unwrap().unwrap();
    assert_eq!(read_data, test_data2);
}

#[test]
fn test_invalid_deserialization() {
    let mut db = setup_test_db();

    db.write_value("test_key", b"invalid_data".to_vec()).unwrap();

    let result = request_data("test_key", &db);
    assert!(result.is_err());
    assert!(matches!(result.unwrap_err(), DbError::ReadDb(_)));
}

#[test]
fn test_request_record_round_trip() {
    // read(write(r)) == r for request records, through the store.
    let mut db = setup_test_db();
    let request = sample_request("7");

    put_request(&request, &mut db).unwrap();
    let retrieved = request_data(&request.id, &db).unwrap().unwrap();
    assert_eq!(retrieved, request);
}

#[test]
fn test_codec_round_trip_entities() {
    // read(write(x)) == x for every stored entity type.
    let request = sample_request("9");
    assert_eq!(decode_request(&encode_request(&request)), Some(request));

    let list = vec!["a".to_string(), "zz".to_string(), String::new()];
    assert_eq!(decode_str_list(&encode_str_list(&list)), Some(list));

    let index = vec![("a".to_string(), 0i128), ("b".to_string(), -7i128)];
    assert_eq!(decode_index(&encode_index(&index)), Some(index));
}

#[test]
fn test_codec_rejects_garbage() {
    assert!(decode_request(&vec![1, 2, 3]).is_none());
    assert!(decode_str_list(&vec![255; 4]).is_none());
    assert!(decode_index(&vec![9]).is_none());
}

#[test]
fn test_pending_and_completed_requests() {
    let mut db = setup_test_db();

    assert!(pending_requests(&db).is_none());
    assert!(completed_requests(&db).is_none());

    let pending = vec!["request1".to_string()];
    update_vector(&mut db, pending_key(), pending.clone()).unwrap();

    let retrieved_pending = pending_requests(&db).unwrap();
    assert_eq!(retrieved_pending, pending);

    let completed = vec!["request2".to_string()];
    update_vector(&mut db, completed_key(), completed.clone()).unwrap();

    let retrieved_completed = completed_requests(&db).unwrap();
    assert_eq!(retrieved_completed, completed);
}

#[test]
fn test_add_completed_request() {
    let mut db = setup_test_db();

    assert!(completed_requests(&db).is_none());

    add_completed_request("request1", &mut db).unwrap();

    let completed = completed_requests(&db).unwrap();
    assert_eq!(completed.len(), 1);
    assert_eq!(completed[0], "request1");

    add_completed_request("request2", &mut db).unwrap();

    let completed = completed_requests(&db).unwrap();
    assert_eq!(completed.len(), 2);
    assert!(completed.contains(&"request1".to_string()));
    assert!(completed.contains(&"request2".to_string()));
}

#[test]
fn test_update_vector() {
    let mut db = setup_test_db();
    let key = "test_vector";

    let initial = vec!["item1".to_string(), "item2".to_string()];
    update_vector(&mut db, key, initial.clone()).unwrap();

    let retrieved = decode_str_list(&db.read(key).unwrap().unwrap()).unwrap();
    assert_eq!(retrieved, initial);

    let updated = vec!["item3".to_string(), "item4".to_string()];
    update_vector(&mut db, key, updated.clone()).unwrap();

    let retrieved = decode_str_list(&db.read(key).unwrap().unwrap()).unwrap();
    assert_eq!(retrieved, updated);
}

#[test]
fn test_update_hashmap() {
    let mut db = setup_test_db();
    let key = "test_hashmap";

    let initial = vec![("key1".to_string(), 100i128), ("key2".to_string(), 200i128)];
    update_hashmap(&mut db, key, initial.clone()).unwrap();

    let retrieved = decode_index(&db.read(key).unwrap().unwrap()).unwrap();
    assert_eq!(retrieved, initial);

    let updated = vec![("key3".to_string(), 300i128), ("key4".to_string(), 400i128)];
    update_hashmap(&mut db, key, updated.clone()).unwrap();

    let retrieved = decode_index(&db.read(key).unwrap().unwrap()).unwrap();
    assert_eq!(retrieved, updated);
}

#[test]
fn test_add_pending_builds_both_collections() {
    let mut db = setup_test_db();

    add_pending_request("reqA", &mut db).unwrap();
    add_pending_request("reqB", &mut db).unwrap();

    let (pending, index) = get_pending_request_and_index(&db);
    assert_eq!(pending.unwrap(), vec!["reqA".to_string(), "reqB".to_string()]);
    assert_eq!(
        index.unwrap(),
        vec![("reqA".to_string(), 0i128), ("reqB".to_string(), 1i128)]
    );
}

#[test]
fn test_swap_remove_mid_queue() {
    // Pending [A, B, C]: removing B moves C into its slot.
    let mut db = setup_test_db();
    add_pending_request("A", &mut db).unwrap();
    add_pending_request("B", &mut db).unwrap();
    add_pending_request("C", &mut db).unwrap();

    remove_pending_request("B", &mut db).unwrap();

    let (pending, index) = get_pending_request_and_index(&db);
    assert_eq!(pending.unwrap(), vec!["A".to_string(), "C".to_string()]);
    assert_eq!(
        index.unwrap(),
        vec![("A".to_string(), 0i128), ("C".to_string(), 1i128)]
    );
}

#[test]
fn test_add_then_remove_restores_pending() {
    // add_pending(id); remove_pending(id) returns the collections to their
    // prior state.
    let mut db = setup_test_db();
    add_pending_request("A", &mut db).unwrap();
    add_pending_request("B", &mut db).unwrap();
    let (before_list, before_index) = get_pending_request_and_index(&db);

    add_pending_request("C", &mut db).unwrap();
    remove_pending_request("C", &mut db).unwrap();

    let (after_list, after_index) = get_pending_request_and_index(&db);
    assert_eq!(before_list, after_list);
    assert_eq!(before_index, after_index);
}

#[test]
fn test_pending_ids_empty_store_consistent() {
    // An empty store yields no pending list, consistently across calls.
    let db = setup_test_db();
    assert!(pending_requests(&db).is_none());
    assert!(pending_requests(&db).is_none());
    assert!(bridge_relayer::endpoints::get_pending_requests(&db).is_none());
}
