//! The batching worker's logic: batch accumulation under the size bound,
//! the concurrency gate, the chain-facing actions of a batch, and the
//! reconciliation of a batch's outcome into the status store.

use vstd::prelude::*;
use crate::record_json::spec_parse_record;
use crate::record_json::spec_render_record;
use crate::store::StatusStore;
use crate::codec::opt_json;
use crate::codec::quoted;
use crate::digits::all_digits;
use crate::digits::dec_digits;
use crate::digits::digits_value;
use crate::digits::parse_u128;
use crate::digits::push_dec_digits;
use crate::codec::push_lit;
use crate::codec::push_quoted;
use crate::codec::push_opt_json;
use crate::text::chars_to_string;
use crate::types::RecordView;
use crate::types::RequestView;
use crate::types::TokenTransferRequest;
use crate::types::TransactionRecord;
use crate::types::TransactionStatus;
use crate::types::record_wf;

verus! {

/// The outcome of one batch submission, as the worker observes it: a chain
/// execution that ended in a success value, a chain execution that ended in
/// any other final status, or a transport failure with no chain response.
pub enum ChainOutcome {
    Executed { txn_hash: String },
    ChainFailed { txn_hash: String, status_text: String },
    RpcFailed { error_text: String },
}

/// The record a batch outcome turns a queued record into.
pub open spec fn spec_apply_outcome(v: RecordView, o: &ChainOutcome) -> RecordView {
    match o {
        ChainOutcome::Executed { txn_hash } => RecordView {
            status: TransactionStatus::Success,
            txn_hash: Some(txn_hash@),
            ..v
        },
        ChainOutcome::ChainFailed { txn_hash, status_text } => RecordView {
            status: TransactionStatus::Failure,
            txn_hash: Some(txn_hash@),
            error_message: Some(status_text@),
            ..v
        },
        ChainOutcome::RpcFailed { error_text } => RecordView {
            status: TransactionStatus::Failure,
            error_message: Some(error_text@),
            ..v
        },
    }
}

/// Apply a batch outcome to one queued record: the status becomes terminal,
/// the hash and error fields are filled as the outcome dictates, and the
/// identity fields are untouched.  A record never moves backwards: it must
/// still be queued when the outcome is applied.
pub fn apply_outcome(rec: &TransactionRecord, outcome: &ChainOutcome) -> (r: TransactionRecord)
    requires
        rec@.status == TransactionStatus::Queued,
        record_wf(rec@),
    ensures
        r@ == spec_apply_outcome(rec@, outcome),
        r@.status.is_terminal(),
        record_wf(r@),
        r@.id == rec@.id,
        r@.sender_id == rec@.sender_id,
        r@.request == rec@.request,
        r@.created_at == rec@.created_at,
        outcome matches ChainOutcome::Executed { .. } ==> r@.status == TransactionStatus::Success,
        !(outcome matches ChainOutcome::Executed { .. }) ==> r@.status
            == TransactionStatus::Failure && r@.error_message is Some,
{
    let mut r = rec.clone();
    match outcome {
        ChainOutcome::Executed { txn_hash } => {
            r.status = TransactionStatus::Success;
            r.txn_hash = Some(txn_hash.clone());
        },
        ChainOutcome::ChainFailed { txn_hash, status_text } => {
            r.status = TransactionStatus::Failure;
            r.txn_hash = Some(txn_hash.clone());
            r.error_message = Some(status_text.clone());
        },
        ChainOutcome::RpcFailed { error_text } => {
            r.status = TransactionStatus::Failure;
            r.error_message = Some(error_text.clone());
        },
    }
    r
}

/// A record's lifecycle is monotonic: an outcome turns a queued record
/// into a terminal one, never the reverse, and never touches the record's
/// identity.  A successful batch stamps every record with its transaction
/// hash; any other outcome marks every record failed with the reason.
pub proof fn lemma_lifecycle_monotonic(v: RecordView, o: &ChainOutcome)
    requires
        v.status == TransactionStatus::Queued,
        record_wf(v),
    ensures
        spec_apply_outcome(v, o).status.is_terminal(),
        spec_apply_outcome(v, o).status != TransactionStatus::Queued,
        record_wf(spec_apply_outcome(v, o)),
        spec_apply_outcome(v, o).id == v.id,
        spec_apply_outcome(v, o).request == v.request,
        spec_apply_outcome(v, o).sender_id == v.sender_id,
        spec_apply_outcome(v, o).created_at == v.created_at,
        match o {
            ChainOutcome::Executed { txn_hash } => spec_apply_outcome(v, o).status
                == TransactionStatus::Success && spec_apply_outcome(v, o).txn_hash == Some(
                txn_hash@,
            ),
            ChainOutcome::ChainFailed { txn_hash, status_text } => spec_apply_outcome(v, o).status
                == TransactionStatus::Failure && spec_apply_outcome(v, o).txn_hash == Some(
                txn_hash@,
            ) && spec_apply_outcome(v, o).error_message == Some(status_text@),
            ChainOutcome::RpcFailed { error_text } => spec_apply_outcome(v, o).status
                == TransactionStatus::Failure && spec_apply_outcome(v, o).error_message == Some(
                error_text@,
            ),
        },
{
}

/// What one record's stored text must be after a batch outcome lands: an
/// absent id stays absent, an unreadable entry is left alone, and a stored
/// record is overwritten with the outcome applied.
pub open spec fn reconcile_target(
    m: Map<Seq<char>, Seq<char>>,
    idv: Seq<char>,
    o: &ChainOutcome,
) -> Option<Seq<char>> {
    if m.contains_key(idv) {
        match spec_parse_record(m[idv]) {
            Some(v) => Some(spec_render_record(spec_apply_outcome(v, o))),
            None => Some(m[idv]),
        }
    } else {
        None
    }
}

/// Whether every stored record of a batch is still queued and well-formed:
/// what admission guarantees for the records a batch owns.
pub open spec fn batch_records_queued(
    m: Map<Seq<char>, Seq<char>>,
    ids: Seq<Seq<char>>,
) -> bool {
    forall|j: int|
        0 <= j < ids.len() && m.contains_key(ids[j]) && spec_parse_record(m[ids[j]]) is Some
            ==> (#[trigger] spec_parse_record(m[ids[j]]))->0.status == TransactionStatus::Queued
            && record_wf(spec_parse_record(m[ids[j]])->0)
}

/// Reconcile a batch's outcome into the store: every record of the batch
/// moves to the terminal state the outcome dictates; every other record,
/// and every receiver list, stays as it was.  Ids whose write never landed
/// are skipped, as the store owes them nothing.
#[verifier::rlimit(100)]
pub fn reconcile_batch(store: &mut StatusStore, ids: &Vec<String>, outcome: &ChainOutcome)
    requires
        old(store).wf(),
        forall|a: int, b: int| 0 <= a < b < ids@.len() ==> ids@[a]@ != ids@[b]@,
        batch_records_queued(old(store).records_json(), ids@.map_values(|s: String| s@)),
    ensures
        final(store).wf(),
        old(store).consistent() ==> final(store).consistent(),
        forall|rc: Seq<char>| final(store).user_txns(rc) == old(store).user_txns(rc),
        forall|j: int|
            0 <= j < ids@.len() ==> #[trigger] lookup(final(store).records_json(), ids@[j]@)
                == reconcile_target(old(store).records_json(), ids@[j]@, outcome),
        forall|k: Seq<char>|
            !ids@.map_values(|s: String| s@).contains(k) ==> #[trigger] lookup(
                final(store).records_json(),
                k,
            ) == lookup(old(store).records_json(), k),
{
    let ghost m0 = old(store).records_json();
    let ghost idsv = ids@.map_values(|s: String| s@);
    let mut j: usize = 0;
    while j < ids.len()
        invariant
            store.wf(),
            old(store).wf(),
            ids@.map_values(|s: String| s@) == idsv,
            m0 == old(store).records_json(),
            forall|a: int, b: int| 0 <= a < b < idsv.len() ==> idsv[a] != idsv[b],
            batch_records_queued(m0, idsv),
            old(store).consistent() ==> store.consistent(),
            forall|rc: Seq<char>| store.user_txns(rc) == old(store).user_txns(rc),
            0 <= j <= idsv.len(),
            forall|t: int|
                0 <= t < j ==> #[trigger] lookup(store.records_json(), idsv[t])
                    == reconcile_target(m0, idsv[t], outcome),
            forall|k: Seq<char>|
                !idsv.take(j as int).contains(k) ==> #[trigger] lookup(store.records_json(), k)
                    == lookup(m0, k),
        decreases idsv.len() - j,
    {
        let ghost idv = idsv[j as int];
        let ghost m_prev = store.records_json();
        proof {
            assert(!idsv.take(j as int).contains(idv)) by {
                assert(forall|t: int| 0 <= t < j ==> idsv.take(j as int)[t] == idsv[t]);
            }
            assert(lookup(m_prev, idv) == lookup(m0, idv));
        }
        match store.get_record(ids[j].as_str()) {
            Some(rec) => {
                let updated = apply_outcome(&rec, outcome);
                store.update_record(&updated);
                proof {
                    assert(lookup(store.records_json(), idv) == reconcile_target(
                        m0,
                        idv,
                        outcome,
                    ));
                    assert forall|k: Seq<char>| k != idv implies #[trigger] lookup(
                        store.records_json(),
                        k,
                    ) == lookup(m_prev, k) by {}
                }
            },
            None => {
                proof {
                    assert(lookup(store.records_json(), idv) == reconcile_target(
                        m0,
                        idv,
                        outcome,
                    ));
                    assert forall|k: Seq<char>| k != idv implies #[trigger] lookup(
                        store.records_json(),
                        k,
                    ) == lookup(m_prev, k) by {}
                }
            },
        }
        j = j + 1;
        proof {
            assert forall|t: int| 0 <= t < j implies #[trigger] lookup(
                store.records_json(),
                idsv[t],
            ) == reconcile_target(m0, idsv[t], outcome) by {
                if t < j - 1 {
                    assert(idsv[t] != idv);
                    assert(lookup(store.records_json(), idsv[t]) == lookup(m_prev, idsv[t]));
                    assert(lookup(m_prev, idsv[t]) == reconcile_target(m0, idsv[t], outcome));
                }
            }
            assert forall|k: Seq<char>|
                !idsv.take(j as int).contains(k) implies #[trigger] lookup(
                store.records_json(),
                k,
            ) == lookup(m0, k) by {
                assert forall|t: int| 0 <= t < j implies idsv[t] != k by {
                    if idsv[t] == k {
                        assert(idsv.take(j as int)[t] == k);
                        assert(idsv.take(j as int).contains(k));
                    }
                }
                assert(k != idv);
                assert(!idsv.take(j - 1).contains(k)) by {
                    if idsv.take(j - 1).contains(k) {
                        let t = choose|t: int| 0 <= t < j - 1 && #[trigger] idsv.take(j - 1)[t]
                            == k;
                        assert(idsv[t] == k);
                    }
                }
                assert(lookup(m_prev, k) == lookup(m0, k));
                assert(lookup(store.records_json(), k) == lookup(m_prev, k));
            }
        }
    }
    proof {
        assert forall|t: int| 0 <= t < ids@.len() implies #[trigger] lookup(
            store.records_json(),
            ids@[t]@,
        ) == reconcile_target(m0, ids@[t]@, outcome) by {
            assert(idsv[t] == ids@[t]@);
        }
        assert forall|k: Seq<char>| !idsv.contains(k) implies #[trigger] lookup(
            store.records_json(),
            k,
        ) == lookup(m0, k) by {
            assert(!idsv.take(j as int).contains(k)) by {
                if idsv.take(j as int).contains(k) {
                    let t = choose|t: int| 0 <= t < j && #[trigger] idsv.take(j as int)[t] == k;
                    assert(idsv[t] == k);
                    assert(idsv.contains(k));
                }
            }
        }
    }
}

/// A map lookup as an option: the value under a key, or nothing.
pub open spec fn lookup(m: Map<Seq<char>, Seq<char>>, k: Seq<char>) -> Option<Seq<char>> {
    if m.contains_key(k) {
        Some(m[k])
    } else {
        None
    }
}

} // verus!

verus! {

/// One receive attempt's result while a batch is forming: an item arrived,
/// the per-receive timeout fired, or the channel closed.
pub enum RecvEvent {
    Received(String, TokenTransferRequest),
    TimedOut,
    ChannelClosed,
}

/// What the worker does after a receive attempt: keep filling the batch,
/// dispatch it, or shut down.
#[derive(Clone, Copy, Debug, PartialEq, Eq, Structural)]
pub enum BatchAction {
    KeepFilling,
    Dispatch,
    Shutdown,
}

/// The batch being formed by the worker: at most `batch_size` items, each
/// the id and request of one admitted transfer.
pub struct BatchAccumulator {
    items: Vec<(String, TokenTransferRequest)>,
    batch_size: usize,
}

impl BatchAccumulator {
    /// The accumulated items: id and request views, in arrival order.
    pub closed spec fn items_view(self) -> Seq<(Seq<char>, RequestView)> {
        self.items@.map_values(|p: (String, TokenTransferRequest)| (p.0@, p.1@))
    }

    /// The configured size bound of a batch.
    pub closed spec fn size_limit(self) -> nat {
        self.batch_size as nat
    }

    /// A forming batch never exceeds the configured size.
    pub closed spec fn wf(self) -> bool {
        1 <= self.batch_size && self.items@.len() <= self.batch_size
    }

    /// The size bound holds at any instant of the accumulator's life.
    pub proof fn lemma_batch_size_bound(self)
        requires
            self.wf(),
        ensures
            self.items_view().len() <= self.size_limit(),
    {
    }

    /// An empty accumulator with the given size bound.
    pub fn new(batch_size: usize) -> (b: Self)
        requires
            batch_size >= 1,
        ensures
            b.wf(),
            b.items_view() == Seq::<(Seq<char>, RequestView)>::empty(),
            b.size_limit() == batch_size,
    {
        let b = BatchAccumulator { items: Vec::new(), batch_size };
        proof {
            assert(b.items_view() =~= Seq::<(Seq<char>, RequestView)>::empty());
        }
        b
    }

    /// How many items the batch holds.
    pub fn len(&self) -> (n: usize)
        ensures
            n == self.items_view().len(),
    {
        self.items.len()
    }

    /// Feed one receive attempt's result to the forming batch.  An arriving
    /// item is appended, and the batch dispatches exactly when it is full;
    /// a timeout dispatches any non-empty batch; a closed channel
    /// dispatches what is left or shuts the worker down.  Since every step
    /// either appends an item or dispatches, a batch dispatches after at
    /// most `batch_size` receive attempts from its first item.
    pub fn offer(&mut self, ev: RecvEvent) -> (a: BatchAction)
        requires
            old(self).wf(),
            old(self).items_view().len() < old(self).size_limit(),
        ensures
            final(self).wf(),
            final(self).size_limit() == old(self).size_limit(),
            match ev {
                RecvEvent::Received(id, req) => {
                    &&& final(self).items_view() == old(self).items_view().push((id@, req@))
                    &&& (a == BatchAction::Dispatch <==> final(self).items_view().len()
                        == final(self).size_limit())
                    &&& (a == BatchAction::KeepFilling <==> final(self).items_view().len()
                        < final(self).size_limit())
                },
                RecvEvent::TimedOut => {
                    &&& final(self).items_view() == old(self).items_view()
                    &&& a == (if old(self).items_view().len() > 0 {
                        BatchAction::Dispatch
                    } else {
                        BatchAction::KeepFilling
                    })
                },
                RecvEvent::ChannelClosed => {
                    &&& final(self).items_view() == old(self).items_view()
                    &&& a == (if old(self).items_view().len() > 0 {
                        BatchAction::Dispatch
                    } else {
                        BatchAction::Shutdown
                    })
                },
            },
    {
        match ev {
            RecvEvent::Received(id, req) => {
                let ghost prev = self.items@;
                self.items.push((id, req));
                proof {
                    let e = self.items@.last();
                    assert(self.items_view() =~= prev.map_values(
                        |p: (String, TokenTransferRequest)| (p.0@, p.1@),
                    ).push((e.0@, e.1@)));
                }
                if self.items.len() == self.batch_size {
                    BatchAction::Dispatch
                } else {
                    BatchAction::KeepFilling
                }
            },
            RecvEvent::TimedOut => {
                if self.items.len() > 0 {
                    BatchAction::Dispatch
                } else {
                    BatchAction::KeepFilling
                }
            },
            RecvEvent::ChannelClosed => {
                if self.items.len() > 0 {
                    BatchAction::Dispatch
                } else {
                    BatchAction::Shutdown
                }
            },
        }
    }

    /// Hand the formed batch over and leave the accumulator empty for the
    /// next one.
    pub fn take_batch(&mut self) -> (batch: Vec<(String, TokenTransferRequest)>)
        requires
            old(self).wf(),
        ensures
            final(self).wf(),
            final(self).size_limit() == old(self).size_limit(),
            final(self).items_view() == Seq::<(Seq<char>, RequestView)>::empty(),
            batch@.map_values(|p: (String, TokenTransferRequest)| (p.0@, p.1@)) == old(
                self,
            ).items_view(),
    {
        let mut out: Vec<(String, TokenTransferRequest)> = Vec::new();
        core::mem::swap(&mut out, &mut self.items);
        proof {
            assert(self.items_view() =~= Seq::<(Seq<char>, RequestView)>::empty());
        }
        out
    }
}

/// The fixed-capacity gate on in-flight batches: the worker acquires a slot
/// before dispatching a batch and releases it when the batch's task ends.
pub struct ConcurrencyGate {
    active: usize,
    capacity: usize,
}

impl ConcurrencyGate {
    /// How many batches are in flight.
    pub closed spec fn active_count(self) -> nat {
        self.active as nat
    }

    /// The configured bound on in-flight batches.
    pub closed spec fn capacity(self) -> nat {
        self.capacity as nat
    }

    /// Well-formedness: the active count stays within the configured limit.
    pub closed spec fn wf(self) -> bool {
        self.active <= self.capacity && self.capacity >= 1
    }

    /// The number of tasks holding a slot is bounded by the configured
    /// limit.
    pub proof fn lemma_in_flight_bounded(self)
        requires
            self.wf(),
        ensures
            self.active_count() <= self.capacity(),
    {
    }

    /// A gate with the given capacity and nothing in flight.
    pub fn new(capacity: usize) -> (g: Self)
        requires
            capacity >= 1,
        ensures
            g.wf(),
            g.active_count() == 0,
            g.capacity() == capacity,
    {
        ConcurrencyGate { active: 0, capacity }
    }

    /// Claim a slot for one batch.  Exactly when all slots are taken, the
    /// claim is refused and the caller must wait.
    pub fn try_acquire(&mut self) -> (ok: bool)
        requires
            old(self).wf(),
        ensures
            final(self).wf(),
            final(self).capacity() == old(self).capacity(),
            ok <==> old(self).active_count() < old(self).capacity(),
            ok ==> final(self).active_count() == old(self).active_count() + 1,
            !ok ==> final(self).active_count() == old(self).active_count(),
    {
        if self.active < self.capacity {
            self.active = self.active + 1;
            true
        } else {
            false
        }
    }

    /// How many batches currently hold a slot.
    pub fn in_flight(&self) -> (n: usize)
        ensures
            n == self.active_count(),
    {
        self.active
    }

    /// Release one batch's slot when its task completes.
    pub fn release(&mut self)
        requires
            old(self).wf(),
            old(self).active_count() >= 1,
        ensures
            final(self).wf(),
            final(self).capacity() == old(self).capacity(),
            final(self).active_count() == old(self).active_count() - 1,
    {
        self.active = self.active - 1;
    }
}

/// One chain action of a batch transaction, ready for the wire: the method
/// name, its JSON arguments, and the fixed gas and deposit.
pub struct FtAction {
    pub method_name: String,
    pub args: String,
    pub gas: u64,
    pub deposit: u128,
}

/// Mathematical view of an `FtAction`.
pub struct ActionView {
    pub method_name: Seq<char>,
    pub args: Seq<char>,
    pub gas: u64,
    pub deposit: u128,
}

impl View for FtAction {
    type V = ActionView;

    open spec fn view(&self) -> ActionView {
        ActionView {
            method_name: self.method_name@,
            args: self.args@,
            gas: self.gas,
            deposit: self.deposit,
        }
    }
}

/// `{"amount":"`
pub open spec fn seg_args_amount() -> Seq<char> {
    seq!['{', '"', 'a', 'm', 'o', 'u', 'n', 't', '"', ':', '"']
}

/// `","memo":`
pub open spec fn seg_args_memo() -> Seq<char> {
    seq!['"', ',', '"', 'm', 'e', 'm', 'o', '"', ':']
}

/// `,"receiver_id":`
pub open spec fn seg_args_receiver() -> Seq<char> {
    seq![',', '"', 'r', 'e', 'c', 'e', 'i', 'v', 'e', 'r', '_', 'i', 'd', '"', ':']
}

/// The JSON argument text of one transfer action: the amount re-rendered
/// canonically as a quoted decimal, the memo, and the receiver, with the
/// chain-side spelling of the receiver field.
pub open spec fn spec_transfer_args(rv: RequestView) -> Seq<char> {
    seg_args_amount() + dec_digits(digits_value(rv.amount) as nat) + seg_args_memo() + opt_json(
        rv.memo,
    ) + seg_args_receiver() + quoted(rv.reciever_id) + seq!['}']
}

/// The chain action a valid, positive transfer request becomes.
pub open spec fn spec_action_of(rv: RequestView) -> ActionView {
    ActionView {
        method_name: "ft_transfer"@,
        args: spec_transfer_args(rv),
        gas: crate::FT_TRANSFER_GAS,
        deposit: crate::FT_TRANSFER_DEPOSIT_YOCTO,
    }
}

/// Whether a request contributes an action to the batch transaction: its
/// amount must be a decimal within 128 bits, and positive.
pub open spec fn contributes_action(rv: RequestView) -> bool {
    &&& rv.amount.len() > 0
    &&& all_digits(rv.amount)
    &&& digits_value(rv.amount) <= u128::MAX
    &&& digits_value(rv.amount) > 0
}

/// The actions of a batch: one per item whose amount is positive, in batch
/// order; zero-amount and unreadable amounts are silently dropped from the
/// chain call.
pub open spec fn spec_batch_actions(items: Seq<RequestView>) -> Seq<ActionView>
    decreases items.len(),
{
    if items.len() == 0 {
        Seq::empty()
    } else if contributes_action(items.last()) {
        spec_batch_actions(items.drop_last()).push(spec_action_of(items.last()))
    } else {
        spec_batch_actions(items.drop_last())
    }
}

/// Render the JSON arguments of one transfer action.
pub fn build_transfer_args(req: &TokenTransferRequest, amount: u128) -> (out: String)
    requires
        amount == digits_value(req@.amount),
    ensures
        out@ == spec_transfer_args(req@),
{
    let mut v: Vec<char> = Vec::new();
    push_lit(&mut v, "{\"amount\":\"");
    proof {
        reveal_strlit("{\"amount\":\"");
        assert("{\"amount\":\""@ =~= seg_args_amount());
        assert(Seq::<char>::empty() + seg_args_amount() =~= seg_args_amount());
    }
    push_dec_digits(amount, &mut v);
    push_lit(&mut v, "\",\"memo\":");
    proof {
        reveal_strlit("\",\"memo\":");
        assert("\",\"memo\":"@ =~= seg_args_memo());
    }
    push_opt_json(&mut v, &req.memo);
    push_lit(&mut v, ",\"receiver_id\":");
    proof {
        reveal_strlit(",\"receiver_id\":");
        assert(",\"receiver_id\":"@ =~= seg_args_receiver());
    }
    push_quoted(&mut v, req.reciever_id.as_str());
    push_lit(&mut v, "}");
    proof {
        reveal_strlit("}");
        assert("}"@ =~= seq!['}']);
        assert(v@ == spec_transfer_args(req@));
    }
    chars_to_string(&v)
}

/// Build the chain actions of a formed batch: one `ft_transfer` call per
/// item with a positive amount, each with the fixed gas and one yocto
/// deposit, in batch order.
pub fn build_batch_actions(batch: &Vec<(String, TokenTransferRequest)>) -> (out: Vec<FtAction>)
    ensures
        out@.map_values(|a: FtAction| a@) == spec_batch_actions(
            batch@.map_values(|p: (String, TokenTransferRequest)| p.1@),
        ),
{
    let ghost reqs = batch@.map_values(|p: (String, TokenTransferRequest)| p.1@);
    let mut out: Vec<FtAction> = Vec::new();
    let mut i: usize = 0;
    proof {
        assert(reqs.take(0) =~= Seq::<RequestView>::empty());
    }
    while i < batch.len()
        invariant
            0 <= i <= batch@.len(),
            reqs == batch@.map_values(|p: (String, TokenTransferRequest)| p.1@),
            out@.map_values(|a: FtAction| a@) == spec_batch_actions(reqs.take(i as int)),
        decreases batch@.len() - i,
    {
        proof {
            assert(reqs.take(i + 1).drop_last() =~= reqs.take(i as int));
            assert(reqs.take(i + 1).last() == reqs[i as int]);
            assert(reqs[i as int] == batch@[i as int].1@);
        }
        let ghost prevout = out@;
        match parse_u128(batch[i].1.amount.as_str()) {
            Some(amount) => {
                if amount > 0 {
                    let args = build_transfer_args(&batch[i].1, amount);
                    let action = FtAction {
                        method_name: "ft_transfer".to_owned(),
                        args,
                        gas: crate::FT_TRANSFER_GAS,
                        deposit: crate::FT_TRANSFER_DEPOSIT_YOCTO,
                    };
                    proof {
                        assert(contributes_action(reqs[i as int]));
                    }
                    out.push(action);
                    proof {
                        assert(out@.map_values(|a: FtAction| a@) =~= prevout.map_values(
                            |a: FtAction| a@,
                        ).push(spec_action_of(reqs[i as int])));
                    }
                } else {
                    proof {
                        assert(!contributes_action(reqs[i as int]));
                    }
                }
            },
            None => {
                proof {
                    assert(!contributes_action(reqs[i as int]));
                }
            },
        }
        i = i + 1;
    }
    proof {
        assert(reqs.take(i as int) =~= reqs);
    }
    out
}

} // verus!
