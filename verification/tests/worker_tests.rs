use nearn_ft::store::StatusStore;
use nearn_ft::types::TokenTransferRequest;
use nearn_ft::types::TransactionRecord;
use nearn_ft::types::TransactionStatus;
use nearn_ft::worker::apply_outcome;
use nearn_ft::worker::build_batch_actions;
use nearn_ft::worker::reconcile_batch;
use nearn_ft::worker::BatchAccumulator;
use nearn_ft::worker::BatchAction;
use nearn_ft::worker::ChainOutcome;
use nearn_ft::worker::ConcurrencyGate;
use nearn_ft::worker::RecvEvent;
use nearn_ft::FT_TRANSFER_DEPOSIT_YOCTO;
use nearn_ft::FT_TRANSFER_GAS;

fn request(receiver: &str, amount: &str) -> TokenTransferRequest {
    TokenTransferRequest {
        reciever_id: receiver.to_string(),
        amount: amount.to_string(),
        memo: None,
    }
}

fn record(id: &str, receiver: &str, amount: &str) -> TransactionRecord {
    TransactionRecord {
        id: id.to_string(),
        sender_id: "bench.testnet".to_string(),
        status: TransactionStatus::Queued,
        request: request(receiver, amount),
        txn_hash: None,
        error_message: None,
        created_at: 7,
    }
}

#[test]
fn fifty_quick_items_form_one_batch() {
    let mut acc = BatchAccumulator::new(64);
    for i in 0..50 {
        let a = acc.offer(RecvEvent::Received(format!("id-{}", i), request("r.test", "1")));
        assert_eq!(a, BatchAction::KeepFilling);
    }
    let a = acc.offer(RecvEvent::TimedOut);
    assert_eq!(a, BatchAction::Dispatch);
    let batch = acc.take_batch();
    assert_eq!(batch.len(), 50);
    assert_eq!(batch[0].0, "id-0");
    assert_eq!(batch[49].0, "id-49");
    assert_eq!(acc.len(), 0);
}

#[test]
fn a_full_batch_dispatches_at_once() {
    let mut acc = BatchAccumulator::new(3);
    assert_eq!(
        acc.offer(RecvEvent::Received("a".to_string(), request("r.test", "1"))),
        BatchAction::KeepFilling
    );
    assert_eq!(
        acc.offer(RecvEvent::Received("b".to_string(), request("r.test", "1"))),
        BatchAction::KeepFilling
    );
    assert_eq!(
        acc.offer(RecvEvent::Received("c".to_string(), request("r.test", "1"))),
        BatchAction::Dispatch
    );
    assert_eq!(acc.take_batch().len(), 3);
}

#[test]
fn closed_channel_flushes_or_shuts_down() {
    let mut acc = BatchAccumulator::new(8);
    assert_eq!(acc.offer(RecvEvent::ChannelClosed), BatchAction::Shutdown);
    acc.offer(RecvEvent::Received("a".to_string(), request("r.test", "1")));
    assert_eq!(acc.offer(RecvEvent::ChannelClosed), BatchAction::Dispatch);
}

#[test]
fn gate_blocks_at_capacity() {
    let mut gate = ConcurrencyGate::new(2);
    assert!(gate.try_acquire());
    assert!(gate.try_acquire());
    assert!(!gate.try_acquire());
    gate.release();
    assert!(gate.try_acquire());
    assert!(!gate.try_acquire());
}

#[test]
fn success_outcome_stamps_the_hash() {
    let r = record("id-1", "alice.test", "100");
    let done = apply_outcome(&r, &ChainOutcome::Executed { txn_hash: "H".to_string() });
    assert!(matches!(done.status, TransactionStatus::Success));
    assert_eq!(done.txn_hash, Some("H".to_string()));
    assert_eq!(done.error_message, None);
    assert_eq!(done.id, "id-1");
    assert_eq!(done.request.reciever_id, "alice.test");
}

#[test]
fn chain_failure_records_hash_and_reason() {
    let r = record("id-1", "alice.test", "100");
    let done = apply_outcome(
        &r,
        &ChainOutcome::ChainFailed {
            txn_hash: "H".to_string(),
            status_text: "Failure(FunctionCallError)".to_string(),
        },
    );
    assert!(matches!(done.status, TransactionStatus::Failure));
    assert_eq!(done.txn_hash, Some("H".to_string()));
    assert_eq!(done.error_message, Some("Failure(FunctionCallError)".to_string()));
}

#[test]
fn rpc_failure_records_the_error() {
    let r = record("id-1", "alice.test", "100");
    let done = apply_outcome(&r, &ChainOutcome::RpcFailed { error_text: "timeout".to_string() });
    assert!(matches!(done.status, TransactionStatus::Failure));
    assert_eq!(done.txn_hash, None);
    assert_eq!(done.error_message, Some("timeout".to_string()));
}

#[test]
fn reconcile_moves_every_batch_record_to_success() {
    let mut store = StatusStore::new();
    store.admit_to_store(&record("id-1", "alice.test", "1"));
    store.admit_to_store(&record("id-2", "bob.test", "2"));
    store.admit_to_store(&record("id-3", "carol.test", "0"));
    let ids = vec!["id-1".to_string(), "id-2".to_string(), "id-3".to_string()];
    reconcile_batch(&mut store, &ids, &ChainOutcome::Executed { txn_hash: "H".to_string() });
    for id in ["id-1", "id-2", "id-3"] {
        let got = store.get_record(id).expect("reconciled record");
        assert!(matches!(got.status, TransactionStatus::Success));
        assert_eq!(got.txn_hash, Some("H".to_string()));
        assert_eq!(got.error_message, None);
    }
    let polled = store.get_record("id-1").expect("record");
    assert_eq!(polled.request.reciever_id, "alice.test");
    assert_eq!(polled.request.amount, "1");
    assert_eq!(polled.sender_id, "bench.testnet");
}

#[test]
fn reconcile_marks_every_batch_record_failed() {
    let mut store = StatusStore::new();
    store.admit_to_store(&record("id-1", "alice.test", "1"));
    store.admit_to_store(&record("id-2", "bob.test", "2"));
    let ids = vec!["id-1".to_string(), "id-2".to_string()];
    reconcile_batch(
        &mut store,
        &ids,
        &ChainOutcome::ChainFailed {
            txn_hash: "H".to_string(),
            status_text: "Failure(Exceeded)".to_string(),
        },
    );
    for id in ["id-1", "id-2"] {
        let got = store.get_record(id).expect("reconciled record");
        assert!(matches!(got.status, TransactionStatus::Failure));
        assert_eq!(got.error_message, Some("Failure(Exceeded)".to_string()));
    }
}

#[test]
fn reconcile_skips_unpersisted_ids() {
    let mut store = StatusStore::new();
    store.admit_to_store(&record("id-1", "alice.test", "1"));
    let ids = vec!["id-1".to_string(), "never-written".to_string()];
    reconcile_batch(&mut store, &ids, &ChainOutcome::Executed { txn_hash: "H".to_string() });
    assert!(store.get_record("id-1").is_some());
    assert!(store.get_record("never-written").is_none());
}

#[test]
fn batch_actions_carry_the_wire_format() {
    let batch = vec![
        ("id-1".to_string(), request("alice.test", "100")),
        ("id-2".to_string(), request("bob.test", "0")),
        ("id-3".to_string(), request("carol.test", "not-a-number")),
        (
            "id-4".to_string(),
            TokenTransferRequest {
                reciever_id: "dave.test".to_string(),
                amount: "0070".to_string(),
                memo: Some("rent".to_string()),
            },
        ),
    ];
    let actions = build_batch_actions(&batch);
    assert_eq!(actions.len(), 2);
    assert_eq!(actions[0].method_name, "ft_transfer");
    assert_eq!(actions[0].gas, FT_TRANSFER_GAS);
    assert_eq!(actions[0].gas, 30_000_000_000_000);
    assert_eq!(actions[0].deposit, FT_TRANSFER_DEPOSIT_YOCTO);
    assert_eq!(actions[0].deposit, 1);
    assert_eq!(
        actions[0].args,
        "{\"amount\":\"100\",\"memo\":null,\"receiver_id\":\"alice.test\"}"
    );
    assert_eq!(
        actions[1].args,
        "{\"amount\":\"70\",\"memo\":\"rent\",\"receiver_id\":\"dave.test\"}"
    );
}
