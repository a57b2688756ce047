//! Core data types of the transfer service: the transfer request, the
//! persisted transaction record and its status, and the response and
//! pagination shapes of the query surface.

use vstd::prelude::*;

verus! {

/// Lifecycle status of a transaction record.  The lifecycle is strictly
/// monotonic: `Queued` may move to `Success` or `Failure`, and the terminal
/// states never change again.
#[derive(Clone, Copy, Debug, PartialEq, Eq, Structural)]
pub enum TransactionStatus {
    Queued,
    Success,
    Failure,
}

impl TransactionStatus {
    /// A status is terminal when it is `Success` or `Failure`.
    pub open spec fn is_terminal(self) -> bool {
        self == TransactionStatus::Success || self == TransactionStatus::Failure
    }
}

/// One client transfer request.  The `reciever_id` spelling is the canonical
/// wire field name and is kept throughout.
#[derive(Debug)]
pub struct TokenTransferRequest {
    pub reciever_id: String,
    pub amount: String,
    pub memo: Option<String>,
}

/// Mathematical view of a `TokenTransferRequest`: the field contents as
/// character sequences.
pub struct RequestView {
    pub reciever_id: Seq<char>,
    pub amount: Seq<char>,
    pub memo: Option<Seq<char>>,
}

impl View for TokenTransferRequest {
    type V = RequestView;

    open spec fn view(&self) -> RequestView {
        RequestView {
            reciever_id: self.reciever_id@,
            amount: self.amount@,
            memo: match self.memo {
                Some(ref m) => Some(m@),
                None => None,
            },
        }
    }
}

impl Clone for TokenTransferRequest {
    fn clone(&self) -> (r: Self)
        ensures
            r@ == self@,
    {
        TokenTransferRequest {
            reciever_id: self.reciever_id.clone(),
            amount: self.amount.clone(),
            memo: match &self.memo {
                Some(m) => Some(m.clone()),
                None => None,
            },
        }
    }
}

/// One persisted transaction record: the unit of the status store.
/// `created_at` is a Unix timestamp in milliseconds.
#[derive(Debug)]
pub struct TransactionRecord {
    pub id: String,
    pub sender_id: String,
    pub status: TransactionStatus,
    pub request: TokenTransferRequest,
    pub txn_hash: Option<String>,
    pub error_message: Option<String>,
    pub created_at: u64,
}

/// Mathematical view of a `TransactionRecord`.
pub struct RecordView {
    pub id: Seq<char>,
    pub sender_id: Seq<char>,
    pub status: TransactionStatus,
    pub request: RequestView,
    pub txn_hash: Option<Seq<char>>,
    pub error_message: Option<Seq<char>>,
    pub created_at: u64,
}

impl View for TransactionRecord {
    type V = RecordView;

    open spec fn view(&self) -> RecordView {
        RecordView {
            id: self.id@,
            sender_id: self.sender_id@,
            status: self.status,
            request: self.request@,
            txn_hash: match self.txn_hash {
                Some(ref h) => Some(h@),
                None => None,
            },
            error_message: match self.error_message {
                Some(ref e) => Some(e@),
                None => None,
            },
            created_at: self.created_at,
        }
    }
}

impl Clone for TransactionRecord {
    fn clone(&self) -> (r: Self)
        ensures
            r@ == self@,
    {
        TransactionRecord {
            id: self.id.clone(),
            sender_id: self.sender_id.clone(),
            status: self.status,
            request: self.request.clone(),
            txn_hash: match &self.txn_hash {
                Some(h) => Some(h.clone()),
                None => None,
            },
            error_message: match &self.error_message {
                Some(e) => Some(e.clone()),
                None => None,
            },
            created_at: self.created_at,
        }
    }
}

/// Well-formedness of a record over its lifecycle: a queued record carries
/// no outcome; a failed record carries an error message; a successful record
/// carries a transaction hash and no error message.
pub open spec fn record_wf(v: RecordView) -> bool {
    &&& v.status == TransactionStatus::Queued ==> v.txn_hash is None && v.error_message is None
    &&& v.status == TransactionStatus::Success ==> v.txn_hash is Some && v.error_message is None
    &&& v.status == TransactionStatus::Failure ==> v.error_message is Some
}

/// Relies on `uuid::Uuid::new_v4` and its `Display` form: a fresh random
/// version-4 UUID rendered in the 36-character hyphenated form.  The value is
/// random, so only the length is stated.
#[verifier::external_body]
fn fresh_record_id() -> (r: String)
    ensures
        r@.len() == 36,
{
    uuid::Uuid::new_v4().to_string()
}

/// Relies on `chrono::Utc::now` and `DateTime::timestamp_millis`: the current
/// wall-clock time as Unix milliseconds.  Nothing is promised of a clock
/// reading.
#[verifier::external_body]
fn now_timestamp_millis() -> (r: i64)
{
    chrono::Utc::now().timestamp_millis()
}

impl TransactionRecord {
    /// A freshly admitted record: a new id, the given sender and request,
    /// `Queued` status, no outcome fields, and the admission-time clock
    /// reading (clamped to zero for pre-epoch clocks).
    pub fn new(sender_id: String, request: TokenTransferRequest) -> (r: Self)
        ensures
            r@.id.len() == 36,
            r@.sender_id == sender_id@,
            r@.status == TransactionStatus::Queued,
            r@.request == request@,
            r@.txn_hash is None,
            r@.error_message is None,
            record_wf(r@),
    {
        let t = now_timestamp_millis();
        let created_at: u64 = if t < 0 {
            0
        } else {
            t as u64
        };
        TransactionRecord {
            id: fresh_record_id(),
            sender_id,
            status: TransactionStatus::Queued,
            request,
            txn_hash: None,
            error_message: None,
            created_at,
        }
    }
}

/// Body of every admission response: whether the request was accepted, a
/// human-readable message, and the record id the client must use for lookups.
#[derive(Debug)]
pub struct TransferResponse {
    pub success: bool,
    pub message: String,
    pub transaction_id: String,
}

/// Mathematical view of a `TransferResponse`.
pub struct ResponseView {
    pub success: bool,
    pub message: Seq<char>,
    pub transaction_id: Seq<char>,
}

impl View for TransferResponse {
    type V = ResponseView;

    open spec fn view(&self) -> ResponseView {
        ResponseView {
            success: self.success,
            message: self.message@,
            transaction_id: self.transaction_id@,
        }
    }
}

impl Clone for TransferResponse {
    fn clone(&self) -> (r: Self)
        ensures
            r@ == self@,
    {
        TransferResponse {
            success: self.success,
            message: self.message.clone(),
            transaction_id: self.transaction_id.clone(),
        }
    }
}

/// Offset/limit query parameters of the per-receiver listing endpoint.
pub struct Pagination {
    pub offset: Option<isize>,
    pub limit: Option<isize>,
}

/// Cursor/count query parameters of the keyspace scan endpoint.
pub struct ScanPagination {
    pub cursor: Option<u64>,
    pub count: Option<u64>,
}

/// One page of the keyspace scan: the cursor to resume from (zero when the
/// scan is complete) and the records of this step.
pub struct PaginatedTransactionResponse {
    pub next_cursor: u64,
    pub records: Vec<TransactionRecord>,
}

/// Mathematical view of a `PaginatedTransactionResponse`.
pub struct PaginatedView {
    pub next_cursor: u64,
    pub records: Seq<RecordView>,
}

impl View for PaginatedTransactionResponse {
    type V = PaginatedView;

    open spec fn view(&self) -> PaginatedView {
        PaginatedView {
            next_cursor: self.next_cursor,
            records: self.records@.map_values(|r: TransactionRecord| r@),
        }
    }
}

} // verus!
