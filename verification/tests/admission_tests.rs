use nearn_ft::admission::accepted_response;
use nearn_ft::admission::admit_request;
use nearn_ft::admission::enqueue_failed_response;
use nearn_ft::admission::validate_request;
use nearn_ft::admission::AdmissionDecision;
use nearn_ft::types::TokenTransferRequest;
use nearn_ft::types::TransactionRecord;
use nearn_ft::types::TransactionStatus;

fn request(receiver: &str, amount: &str) -> TokenTransferRequest {
    TokenTransferRequest {
        reciever_id: receiver.to_string(),
        amount: amount.to_string(),
        memo: None,
    }
}

#[test]
fn valid_request_is_admitted_queued() {
    let d = admit_request("bench.testnet".to_string(), request("alice.test", "100"));
    match d {
        AdmissionDecision::Admitted(rec) => {
            assert!(matches!(rec.status, TransactionStatus::Queued));
            assert_eq!(rec.txn_hash, None);
            assert_eq!(rec.error_message, None);
            assert_eq!(rec.sender_id, "bench.testnet");
            assert_eq!(rec.request.reciever_id, "alice.test");
            assert_eq!(rec.request.amount, "100");
            assert_eq!(rec.id.len(), 36);
        },
        AdmissionDecision::Rejected(_) => panic!("valid request was rejected"),
    }
}

#[test]
fn bad_amount_is_rejected() {
    let d = admit_request("bench.testnet".to_string(), request("bob.test", "not-a-number"));
    match d {
        AdmissionDecision::Rejected(resp) => {
            assert!(!resp.success);
            assert_eq!(resp.message, "Invalid receiver_id or amount");
            assert_eq!(resp.transaction_id.len(), 36);
        },
        AdmissionDecision::Admitted(_) => panic!("bad amount was admitted"),
    }
}

#[test]
fn empty_receiver_is_rejected() {
    let d = admit_request("bench.testnet".to_string(), request("", "5"));
    assert!(matches!(d, AdmissionDecision::Rejected(_)));
}

#[test]
fn validation_matches_amount_grammar() {
    assert!(validate_request(&request("alice.test", "1")));
    assert!(validate_request(&request("alice.test", "0")));
    assert!(!validate_request(&request("alice.test", "")));
    assert!(!validate_request(&request("alice.test", "1.5")));
    assert!(!validate_request(&request("", "1")));
    assert!(!validate_request(&request(
        "alice.test",
        "340282366920938463463374607431768211456"
    )));
}

#[test]
fn admission_responses_carry_the_record_id() {
    let ok = accepted_response("some-id".to_string());
    assert!(ok.success);
    assert_eq!(ok.transaction_id, "some-id");
    assert_eq!(ok.message, "Transfer request accepted and queued for processing.");
    let bad = enqueue_failed_response("some-id".to_string());
    assert!(!bad.success);
    assert_eq!(bad.transaction_id, "some-id");
    assert_eq!(bad.message, "Failed to queue transfer request.");
}

#[test]
fn fresh_records_have_uuid_handles() {
    let a = TransactionRecord::new("s.test".to_string(), request("r.test", "1"));
    let b = TransactionRecord::new("s.test".to_string(), request("r.test", "1"));
    assert_eq!(a.id.len(), 36);
    assert_eq!(b.id.len(), 36);
    assert_ne!(a.id, b.id);
    assert!(a.created_at > 0);
}
