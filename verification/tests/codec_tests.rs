use nearn_ft::digits::parse_u128;
use nearn_ft::digits::u128_to_chars;
use nearn_ft::record_json::encode_record;
use nearn_ft::record_json::parse_record;
use nearn_ft::types::TokenTransferRequest;
use nearn_ft::types::TransactionRecord;
use nearn_ft::types::TransactionStatus;

fn sample_record() -> TransactionRecord {
    TransactionRecord {
        id: "11111111-2222-3333-4444-555555555555".to_string(),
        sender_id: "bench.testnet".to_string(),
        status: TransactionStatus::Queued,
        request: TokenTransferRequest {
            reciever_id: "alice.test".to_string(),
            amount: "100".to_string(),
            memo: Some("hi".to_string()),
        },
        txn_hash: None,
        error_message: None,
        created_at: 42,
    }
}

#[test]
fn encode_record_exact_json() {
    let json = encode_record(&sample_record());
    assert_eq!(
        json,
        "{\"id\":\"11111111-2222-3333-4444-555555555555\",\"sender_id\":\"bench.testnet\",\
         \"status\":\"Queued\",\"request\":{\"reciever_id\":\"alice.test\",\"amount\":\"100\",\
         \"memo\":\"hi\"},\"txn_hash\":null,\"error_message\":null,\"created_at\":42}"
    );
}

#[test]
fn record_round_trip_queued() {
    let r = sample_record();
    let back = parse_record(&encode_record(&r)).expect("round trip");
    assert_eq!(back.id, r.id);
    assert_eq!(back.sender_id, r.sender_id);
    assert!(matches!(back.status, TransactionStatus::Queued));
    assert_eq!(back.request.reciever_id, r.request.reciever_id);
    assert_eq!(back.request.amount, r.request.amount);
    assert_eq!(back.request.memo, Some("hi".to_string()));
    assert_eq!(back.txn_hash, None);
    assert_eq!(back.error_message, None);
    assert_eq!(back.created_at, 42);
}

#[test]
fn record_round_trip_terminal_states() {
    let mut r = sample_record();
    r.status = TransactionStatus::Success;
    r.txn_hash = Some("F4u7s".to_string());
    r.request.memo = None;
    let back = parse_record(&encode_record(&r)).expect("round trip");
    assert!(matches!(back.status, TransactionStatus::Success));
    assert_eq!(back.txn_hash, Some("F4u7s".to_string()));
    assert_eq!(back.request.memo, None);

    r.status = TransactionStatus::Failure;
    r.error_message = Some("chain said no".to_string());
    let back = parse_record(&encode_record(&r)).expect("round trip");
    assert!(matches!(back.status, TransactionStatus::Failure));
    assert_eq!(back.error_message, Some("chain said no".to_string()));
}

#[test]
fn record_round_trip_escapes() {
    let mut r = sample_record();
    r.request.memo = Some("a\"b\\c\nd".to_string());
    let json = encode_record(&r);
    assert!(json.contains("a\\\"b\\\\c\\u000ad"));
    let back = parse_record(&json).expect("round trip");
    assert_eq!(back.request.memo, Some("a\"b\\c\nd".to_string()));
}

#[test]
fn parse_record_rejects_malformed() {
    assert!(parse_record("").is_none());
    assert!(parse_record("{}").is_none());
    assert!(parse_record("{\"id\":\"x\"}").is_none());
    let good = encode_record(&sample_record());
    let mut truncated = good.clone();
    truncated.pop();
    assert!(parse_record(&truncated).is_none());
    let trailing = format!("{} ", good);
    assert!(parse_record(&trailing).is_none());
}

#[test]
fn parse_u128_accepts_digits_only() {
    assert_eq!(parse_u128("0"), Some(0));
    assert_eq!(parse_u128("100"), Some(100));
    assert_eq!(parse_u128("00123"), Some(123));
    assert_eq!(
        parse_u128("340282366920938463463374607431768211455"),
        Some(u128::MAX)
    );
}

#[test]
fn parse_u128_rejects_bad_input() {
    assert_eq!(parse_u128(""), None);
    assert_eq!(parse_u128("not-a-number"), None);
    assert_eq!(parse_u128("12a"), None);
    assert_eq!(parse_u128("-5"), None);
    assert_eq!(parse_u128("+5"), None);
    assert_eq!(parse_u128("340282366920938463463374607431768211456"), None);
}

#[test]
fn u128_renders_canonically() {
    let chars = u128_to_chars(0);
    let s: String = chars.into_iter().collect();
    assert_eq!(s, "0");
    let chars = u128_to_chars(30_000_000_000_000);
    let s: String = chars.into_iter().collect();
    assert_eq!(s, "30000000000000");
}
