//! Ingress admission: request validation, record creation, and the response
//! decisions of the transfer endpoint.

use vstd::prelude::*;
use crate::digits::all_digits;
use crate::digits::digits_value;
use crate::digits::parse_u128;
use crate::types::RequestView;
use crate::types::TokenTransferRequest;
use crate::types::TransactionRecord;
use crate::types::TransactionStatus;
use crate::types::TransferResponse;
use crate::types::record_wf;

verus! {

/// A request is valid when its receiver is non-empty and its amount is a
/// decimal string whose value fits in an unsigned 128-bit integer.
pub open spec fn spec_valid_request(v: RequestView) -> bool {
    &&& v.reciever_id.len() > 0
    &&& v.amount.len() > 0
    &&& all_digits(v.amount)
    &&& digits_value(v.amount) <= u128::MAX
}

/// Validate a transfer request: exactly the valid requests are accepted.
pub fn validate_request(request: &TokenTransferRequest) -> (b: bool)
    ensures
        b == spec_valid_request(request@),
{
    if request.reciever_id.as_str().is_empty() {
        return false;
    }
    match parse_u128(request.amount.as_str()) {
        Some(_) => true,
        None => false,
    }
}

/// What admission decides for one request: either a rejection response, or
/// a freshly created `Queued` record to persist and enqueue.
pub enum AdmissionDecision {
    Rejected(TransferResponse),
    Admitted(TransactionRecord),
}

/// Admit or reject one transfer request.  Exactly the invalid requests are
/// rejected, with a client error response carrying a fresh record id under
/// which nothing is persisted.  An admitted request produces the `Queued`
/// record, carrying the request unchanged, that admission persists and
/// enqueues.
pub fn admit_request(sender_id: String, request: TokenTransferRequest) -> (d: AdmissionDecision)
    ensures
        match d {
            AdmissionDecision::Rejected(resp) => {
                &&& !spec_valid_request(request@)
                &&& !resp.success
                &&& resp@.message == "Invalid receiver_id or amount"@
                &&& resp@.transaction_id.len() == 36
            },
            AdmissionDecision::Admitted(rec) => {
                &&& spec_valid_request(request@)
                &&& rec@.status == TransactionStatus::Queued
                &&& rec@.txn_hash is None
                &&& rec@.error_message is None
                &&& rec@.request == request@
                &&& rec@.sender_id == sender_id@
                &&& rec@.id.len() == 36
                &&& record_wf(rec@)
            },
        },
{
    if !validate_request(&request) {
        let rec = TransactionRecord::new(sender_id, request);
        AdmissionDecision::Rejected(
            TransferResponse {
                success: false,
                message: "Invalid receiver_id or amount".to_owned(),
                transaction_id: rec.id,
            },
        )
    } else {
        AdmissionDecision::Admitted(TransactionRecord::new(sender_id, request))
    }
}

/// The body of the acknowledgement that admission returns once the record
/// is enqueued: success, and the record id as the client's handle.
pub fn accepted_response(record_id: String) -> (r: TransferResponse)
    ensures
        r@.success,
        r@.message == "Transfer request accepted and queued for processing."@,
        r@.transaction_id == record_id@,
{
    TransferResponse {
        success: true,
        message: "Transfer request accepted and queued for processing.".to_owned(),
        transaction_id: record_id,
    }
}

/// The body of the failure report that admission returns when the queue
/// refuses the record: no success, and still the record id.
pub fn enqueue_failed_response(record_id: String) -> (r: TransferResponse)
    ensures
        !r@.success,
        r@.message == "Failed to queue transfer request."@,
        r@.transaction_id == record_id@,
{
    TransferResponse {
        success: false,
        message: "Failed to queue transfer request.".to_owned(),
        transaction_id: record_id,
    }
}

} // verus!
