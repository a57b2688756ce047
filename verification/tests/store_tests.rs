use nearn_ft::store::StatusStore;
use nearn_ft::types::TokenTransferRequest;
use nearn_ft::types::TransactionRecord;
use nearn_ft::types::TransactionStatus;

fn record(id: &str, receiver: &str, amount: &str) -> TransactionRecord {
    TransactionRecord {
        id: id.to_string(),
        sender_id: "bench.testnet".to_string(),
        status: TransactionStatus::Queued,
        request: TokenTransferRequest {
            reciever_id: receiver.to_string(),
            amount: amount.to_string(),
            memo: None,
        },
        txn_hash: None,
        error_message: None,
        created_at: 7,
    }
}

#[test]
fn put_then_get_returns_the_record() {
    let mut store = StatusStore::new();
    let r = record("id-1", "alice.test", "100");
    store.put_record(&r);
    let got = store.get_record("id-1").expect("stored record");
    assert_eq!(got.id, "id-1");
    assert_eq!(got.request.reciever_id, "alice.test");
    assert_eq!(got.request.amount, "100");
    assert!(matches!(got.status, TransactionStatus::Queued));
}

#[test]
fn get_missing_returns_none() {
    let store = StatusStore::new();
    assert!(store.get_record("nope").is_none());
}

#[test]
fn put_overwrites_in_place() {
    let mut store = StatusStore::new();
    store.put_record(&record("id-1", "alice.test", "100"));
    let mut r2 = record("id-1", "alice.test", "100");
    r2.status = TransactionStatus::Success;
    r2.txn_hash = Some("H".to_string());
    store.put_record(&r2);
    let got = store.get_record("id-1").expect("stored record");
    assert!(matches!(got.status, TransactionStatus::Success));
    assert_eq!(got.txn_hash, Some("H".to_string()));
}

#[test]
fn receiver_listing_is_newest_first() {
    let mut store = StatusStore::new();
    store.admit_to_store(&record("id-1", "alice.test", "1"));
    store.admit_to_store(&record("id-2", "bob.test", "2"));
    store.admit_to_store(&record("id-3", "alice.test", "3"));
    let alice = store.list_by_receiver(&"alice.test".to_string());
    assert_eq!(alice.len(), 2);
    assert_eq!(alice[0].id, "id-3");
    assert_eq!(alice[1].id, "id-1");
    let bob = store.list_by_receiver(&"bob.test".to_string());
    assert_eq!(bob.len(), 1);
    assert_eq!(bob[0].id, "id-2");
    let nobody = store.list_by_receiver(&"carol.test".to_string());
    assert!(nobody.is_empty());
}

#[test]
fn scan_pages_cover_every_record() {
    let mut store = StatusStore::new();
    store.admit_to_store(&record("id-1", "alice.test", "1"));
    store.admit_to_store(&record("id-2", "bob.test", "2"));
    store.admit_to_store(&record("id-3", "carol.test", "3"));
    let mut cursor: u64 = 0;
    let mut seen: Vec<String> = Vec::new();
    loop {
        let page = store.scan(cursor, 2);
        for r in page.records {
            seen.push(r.id);
        }
        if page.next_cursor == 0 {
            break;
        }
        cursor = page.next_cursor;
    }
    assert_eq!(seen, vec!["id-1".to_string(), "id-2".to_string(), "id-3".to_string()]);
}

#[test]
fn scan_beyond_the_end_is_empty_and_final() {
    let mut store = StatusStore::new();
    store.admit_to_store(&record("id-1", "alice.test", "1"));
    let page = store.scan(50, 10);
    assert_eq!(page.next_cursor, 0);
    assert!(page.records.is_empty());
}

#[test]
fn status_listing_filters_by_status() {
    let mut store = StatusStore::new();
    store.admit_to_store(&record("id-1", "alice.test", "1"));
    let mut done = record("id-2", "bob.test", "2");
    store.admit_to_store(&done);
    done.status = TransactionStatus::Success;
    done.txn_hash = Some("H".to_string());
    store.update_record(&done);
    let queued = store.list_by_status(TransactionStatus::Queued);
    assert_eq!(queued.len(), 1);
    assert_eq!(queued[0].id, "id-1");
    let succeeded = store.list_by_status(TransactionStatus::Success);
    assert_eq!(succeeded.len(), 1);
    assert_eq!(succeeded[0].id, "id-2");
    assert!(store.list_by_status(TransactionStatus::Failure).is_empty());
}
