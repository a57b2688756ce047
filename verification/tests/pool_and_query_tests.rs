use nearn_ft::keypool::SigningKeyPool;
use nearn_ft::queries::decode_records;
use nearn_ft::queries::parse_status;
use nearn_ft::queries::txn_key;
use nearn_ft::queries::user_txns_key;
use nearn_ft::record_json::encode_record;
use nearn_ft::types::TokenTransferRequest;
use nearn_ft::types::TransactionRecord;
use nearn_ft::types::TransactionStatus;

#[test]
fn round_robin_exercises_every_key() {
    let mut pool = SigningKeyPool::new("bench.testnet".to_string());
    for i in 0..8 {
        pool.install_key(format!("ed25519:pub{}", i), format!("ed25519:sec{}", i), 0);
    }
    assert_eq!(pool.key_count(), 8);
    let mut counts = [0usize; 8];
    for _ in 0..16 {
        let idx = pool.select_key();
        counts[idx] += 1;
    }
    for c in counts {
        assert_eq!(c, 2);
    }
}

#[test]
fn nonces_increase_per_key() {
    let mut pool = SigningKeyPool::new("bench.testnet".to_string());
    pool.install_key("pk0".to_string(), "sk0".to_string(), 10);
    pool.install_key("pk1".to_string(), "sk1".to_string(), 90);
    assert_eq!(pool.assign_nonce(0), 11);
    assert_eq!(pool.assign_nonce(0), 12);
    assert_eq!(pool.assign_nonce(1), 91);
    assert_eq!(pool.assign_nonce(0), 13);
}

#[test]
fn resync_never_moves_a_nonce_backwards() {
    let mut pool = SigningKeyPool::new("bench.testnet".to_string());
    pool.install_key("pk0".to_string(), "sk0".to_string(), 10);
    pool.resync_nonce(0, 50);
    assert_eq!(pool.assign_nonce(0), 51);
    pool.resync_nonce(0, 3);
    assert_eq!(pool.assign_nonce(0), 52);
}

#[test]
fn status_words_parse_case_insensitively() {
    assert!(matches!(parse_status("Queued"), Some(TransactionStatus::Queued)));
    assert!(matches!(parse_status("queued"), Some(TransactionStatus::Queued)));
    assert!(matches!(parse_status("SUCCESS"), Some(TransactionStatus::Success)));
    assert!(matches!(parse_status("Failure"), Some(TransactionStatus::Failure)));
    assert!(parse_status("pending").is_none());
    assert!(parse_status("").is_none());
    assert!(parse_status("queued ").is_none());
}

#[test]
fn store_keys_follow_the_layout() {
    assert_eq!(txn_key("abc-123"), "txn:abc-123");
    assert_eq!(user_txns_key("alice.test"), "user_txns:alice.test");
}

#[test]
fn decoding_skips_missing_and_malformed_entries() {
    let rec = TransactionRecord {
        id: "id-9".to_string(),
        sender_id: "bench.testnet".to_string(),
        status: TransactionStatus::Queued,
        request: TokenTransferRequest {
            reciever_id: "alice.test".to_string(),
            amount: "5".to_string(),
            memo: None,
        },
        txn_hash: None,
        error_message: None,
        created_at: 1,
    };
    let jsons = vec![
        None,
        Some(encode_record(&rec)),
        Some("garbage".to_string()),
    ];
    let out = decode_records(&jsons);
    assert_eq!(out.len(), 1);
    assert_eq!(out[0].id, "id-9");
}
