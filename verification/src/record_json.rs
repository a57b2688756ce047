//! The JSON form of a transaction record: a fixed-order object with every
//! field present (`null` for absent options), rendered and parsed by a
//! verified codec that round-trips.

use vstd::prelude::*;
use crate::codec::quoted;
use crate::codec::opt_json;
use crate::codec::skip_lit;
use crate::codec::take_qstring;
use crate::codec::take_opt_json;
use crate::codec::lemma_skip_lit;
use crate::codec::lemma_take_qstring;
use crate::codec::lemma_take_opt_json;
use crate::digits::dec_digits;
use crate::digits::digits_value;
use crate::digits::is_digit_char;
use crate::digits::take_digits;
use crate::digits::lemma_dec_digits_shape;
use crate::digits::lemma_dec_digits_value;
use crate::digits::lemma_take_digits;
use crate::codec::push_lit;
use crate::codec::push_quoted;
use crate::codec::push_opt_json;
use crate::codec::scan_lit;
use crate::codec::scan_qstring;
use crate::codec::scan_opt_json;
use crate::digits::push_dec_digits;
use crate::digits::parse_u128_chars;
use crate::digits::scan_digits;
use crate::digits::lemma_take_digits_all;
use crate::text::chars_to_string;
use crate::types::TransactionRecord;
use crate::types::TokenTransferRequest;
use crate::types::RecordView;
use crate::types::RequestView;
use crate::types::TransactionStatus;

verus! {

/// `{"id":`
pub open spec fn seg_id() -> Seq<char> {
    seq!['{', '"', 'i', 'd', '"', ':']
}

/// `,"sender_id":`
pub open spec fn seg_sender() -> Seq<char> {
    seq![',', '"', 's', 'e', 'n', 'd', 'e', 'r', '_', 'i', 'd', '"', ':']
}

/// `,"status":`
pub open spec fn seg_status() -> Seq<char> {
    seq![',', '"', 's', 't', 'a', 't', 'u', 's', '"', ':']
}

/// `,"request":{"reciever_id":`
pub open spec fn seg_request() -> Seq<char> {
    seq![',', '"', 'r', 'e', 'q', 'u', 'e', 's', 't', '"', ':', '{', '"', 'r', 'e', 'c', 'i',
        'e', 'v', 'e', 'r', '_', 'i', 'd', '"', ':']
}

/// `,"amount":`
pub open spec fn seg_amount() -> Seq<char> {
    seq![',', '"', 'a', 'm', 'o', 'u', 'n', 't', '"', ':']
}

/// `,"memo":`
pub open spec fn seg_memo() -> Seq<char> {
    seq![',', '"', 'm', 'e', 'm', 'o', '"', ':']
}

/// `},"txn_hash":`
pub open spec fn seg_txn_hash() -> Seq<char> {
    seq!['}', ',', '"', 't', 'x', 'n', '_', 'h', 'a', 's', 'h', '"', ':']
}

/// `,"error_message":`
pub open spec fn seg_error() -> Seq<char> {
    seq![',', '"', 'e', 'r', 'r', 'o', 'r', '_', 'm', 'e', 's', 's', 'a', 'g', 'e', '"', ':']
}

/// `,"created_at":`
pub open spec fn seg_created() -> Seq<char> {
    seq![',', '"', 'c', 'r', 'e', 'a', 't', 'e', 'd', '_', 'a', 't', '"', ':']
}

/// `}`
pub open spec fn seg_close() -> Seq<char> {
    seq!['}']
}

/// The bare word of a status.
pub open spec fn status_word(st: TransactionStatus) -> Seq<char> {
    match st {
        TransactionStatus::Queued => seq!['Q', 'u', 'e', 'u', 'e', 'd'],
        TransactionStatus::Success => seq!['S', 'u', 'c', 'c', 'e', 's', 's'],
        TransactionStatus::Failure => seq!['F', 'a', 'i', 'l', 'u', 'r', 'e'],
    }
}

/// The JSON form of a status: its word in quotes.
pub open spec fn status_json(st: TransactionStatus) -> Seq<char> {
    seq!['"'] + status_word(st) + seq!['"']
}

/// Consume a status: one of the three quoted status words.
pub open spec fn take_status_json(s: Seq<char>) -> Option<(TransactionStatus, Seq<char>)> {
    if skip_lit(s, status_json(TransactionStatus::Queued)) is Some {
        Some((TransactionStatus::Queued, skip_lit(s, status_json(TransactionStatus::Queued))->0))
    } else if skip_lit(s, status_json(TransactionStatus::Success)) is Some {
        Some((TransactionStatus::Success, skip_lit(s, status_json(TransactionStatus::Success))->0))
    } else if skip_lit(s, status_json(TransactionStatus::Failure)) is Some {
        Some((TransactionStatus::Failure, skip_lit(s, status_json(TransactionStatus::Failure))->0))
    } else {
        None
    }
}

/// Consume a decimal number that fits in 64 bits.
pub open spec fn take_u64(s: Seq<char>) -> Option<(u64, Seq<char>)> {
    let p = take_digits(s);
    if p.0.len() == 0 || digits_value(p.0) > u64::MAX {
        None
    } else {
        Some((digits_value(p.0) as u64, p.1))
    }
}

/// The serialized form of a record: a JSON object with the fields in fixed
/// order, string contents escaped, absent options as `null`, and the
/// creation time as a plain number.
#[verifier::opaque]
pub open spec fn spec_render_record(v: RecordView) -> Seq<char> {
    seg_id() + quoted(v.id) + seg_sender() + quoted(v.sender_id) + seg_status() + status_json(
        v.status,
    ) + seg_request() + quoted(v.request.reciever_id) + seg_amount() + quoted(v.request.amount)
        + seg_memo() + opt_json(v.request.memo) + seg_txn_hash() + opt_json(v.txn_hash)
        + seg_error() + opt_json(v.error_message) + seg_created() + dec_digits(
        v.created_at as nat,
    ) + seg_close()
}

/// Parse the serialized form of a record.  Exactly the strings produced by
/// `spec_render_record` for some record, with the grammar's escaping rules,
/// are accepted.
#[verifier::opaque]
pub open spec fn spec_parse_record(s: Seq<char>) -> Option<RecordView> {
    match skip_lit(s, seg_id()) {
        None => None,
        Some(s1) => match take_qstring(s1) {
            None => None,
            Some((id, s2)) => match skip_lit(s2, seg_sender()) {
                None => None,
                Some(s3) => match take_qstring(s3) {
                    None => None,
                    Some((sender_id, s4)) => match skip_lit(s4, seg_status()) {
                        None => None,
                        Some(s5) => match take_status_json(s5) {
                            None => None,
                            Some((status, s6)) => match skip_lit(s6, seg_request()) {
                                None => None,
                                Some(s7) => match take_qstring(s7) {
                                    None => None,
                                    Some((reciever_id, s8)) => match skip_lit(s8, seg_amount()) {
                                        None => None,
                                        Some(s9) => match take_qstring(s9) {
                                            None => None,
                                            Some((amount, s10)) => spec_parse_record_tail(
                                                id,
                                                sender_id,
                                                status,
                                                reciever_id,
                                                amount,
                                                s10,
                                            ),
                                        },
                                    },
                                },
                            },
                        },
                    },
                },
            },
        },
    }
}

/// Parse the remainder of a record after the amount: the memo, outcome
/// fields and creation time.
#[verifier::opaque]
pub open spec fn spec_parse_record_tail(
    id: Seq<char>,
    sender_id: Seq<char>,
    status: TransactionStatus,
    reciever_id: Seq<char>,
    amount: Seq<char>,
    s: Seq<char>,
) -> Option<RecordView> {
    match skip_lit(s, seg_memo()) {
        None => None,
        Some(s1) => match take_opt_json(s1) {
            None => None,
            Some((memo, s2)) => match skip_lit(s2, seg_txn_hash()) {
                None => None,
                Some(s3) => match take_opt_json(s3) {
                    None => None,
                    Some((txn_hash, s4)) => match skip_lit(s4, seg_error()) {
                        None => None,
                        Some(s5) => match take_opt_json(s5) {
                            None => None,
                            Some((error_message, s6)) => match skip_lit(s6, seg_created()) {
                                None => None,
                                Some(s7) => match take_u64(s7) {
                                    None => None,
                                    Some((created_at, s8)) => match skip_lit(s8, seg_close()) {
                                        None => None,
                                        Some(s9) => if s9.len() == 0 {
                                            Some(
                                                RecordView {
                                                    id,
                                                    sender_id,
                                                    status,
                                                    request: RequestView {
                                                        reciever_id,
                                                        amount,
                                                        memo,
                                                    },
                                                    txn_hash,
                                                    error_message,
                                                    created_at,
                                                },
                                            )
                                        } else {
                                            None
                                        },
                                    },
                                },
                            },
                        },
                    },
                },
            },
        },
    }
}

/// Consuming the JSON form of a status recovers it and the remainder.
proof fn lemma_take_status_json(st: TransactionStatus, rest: Seq<char>)
    ensures
        take_status_json(status_json(st) + rest) == Some((st, rest)),
{
    let s = status_json(st) + rest;
    lemma_skip_lit(status_json(st), rest);
    assert(s[1] == status_word(st)[0]);
    match st {
        TransactionStatus::Queued => {
        },
        TransactionStatus::Success => {
            assert(skip_lit(s, status_json(TransactionStatus::Queued)) is None) by {
                if skip_lit(s, status_json(TransactionStatus::Queued)) is Some {
                    assert(s.subrange(0, 8)[1] == s[1]);
                }
            }
        },
        TransactionStatus::Failure => {
            assert(skip_lit(s, status_json(TransactionStatus::Queued)) is None) by {
                if skip_lit(s, status_json(TransactionStatus::Queued)) is Some {
                    assert(s.subrange(0, 8)[1] == s[1]);
                }
            }
            assert(skip_lit(s, status_json(TransactionStatus::Success)) is None) by {
                if skip_lit(s, status_json(TransactionStatus::Success)) is Some {
                    assert(s.subrange(0, 9)[1] == s[1]);
                }
            }
        },
    }
}

/// Consuming the decimal form of a 64-bit number recovers it and the
/// remainder, provided the remainder does not begin with a digit.
proof fn lemma_take_u64(n: u64, rest: Seq<char>)
    requires
        rest.len() > 0 ==> !is_digit_char(rest[0]),
    ensures
        take_u64(dec_digits(n as nat) + rest) == Some((n, rest)),
{
    lemma_dec_digits_shape(n as nat);
    lemma_dec_digits_value(n as nat);
    lemma_take_digits(dec_digits(n as nat), rest);
}

/// The rendering of a record, regrouped so that each field's text stands at
/// the head of what follows it.
#[verifier::rlimit(100)]
proof fn lemma_render_nested(v: RecordView)
    ensures
        spec_render_record(v) == seg_id() + (quoted(v.id) + (seg_sender() + (quoted(v.sender_id)
            + (seg_status() + (status_json(v.status) + (seg_request() + (quoted(
            v.request.reciever_id,
        ) + (seg_amount() + (quoted(v.request.amount) + (seg_memo() + (opt_json(v.request.memo)
            + (seg_txn_hash() + (opt_json(v.txn_hash) + (seg_error() + (opt_json(v.error_message)
            + (seg_created() + (dec_digits(v.created_at as nat) + seg_close()))))))))))))))))),
{
    reveal(spec_render_record);
    assert(spec_render_record(v) =~= seg_id() + (quoted(v.id) + (seg_sender() + (quoted(
        v.sender_id,
    ) + (seg_status() + (status_json(v.status) + (seg_request() + (quoted(v.request.reciever_id)
        + (seg_amount() + (quoted(v.request.amount) + (seg_memo() + (opt_json(v.request.memo)
        + (seg_txn_hash() + (opt_json(v.txn_hash) + (seg_error() + (opt_json(v.error_message)
        + (seg_created() + (dec_digits(v.created_at as nat) + seg_close()))))))))))))))))));
}

/// The record codec round-trips: parsing the rendering of any record view
/// yields exactly that view.
pub proof fn lemma_parse_render_record(v: RecordView)
    ensures
        spec_parse_record(spec_render_record(v)) == Some(v),
{
    reveal(spec_parse_record);
    reveal(spec_parse_record_tail);
    let p10 = seg_close();
    let p9 = dec_digits(v.created_at as nat) + p10;
    let p8 = seg_created() + p9;
    let p7 = opt_json(v.error_message) + p8;
    let p6s = seg_error() + p7;
    let p6 = opt_json(v.txn_hash) + p6s;
    let p5s = seg_txn_hash() + p6;
    let p5 = opt_json(v.request.memo) + p5s;
    let p4s = seg_memo() + p5;
    let p4 = quoted(v.request.amount) + p4s;
    let p3s = seg_amount() + p4;
    let p3 = quoted(v.request.reciever_id) + p3s;
    let p2s = seg_request() + p3;
    let p2 = status_json(v.status) + p2s;
    let p1s = seg_status() + p2;
    let p1 = quoted(v.sender_id) + p1s;
    let p0s = seg_sender() + p1;
    let p0 = quoted(v.id) + p0s;
    lemma_render_nested(v);
    assert(spec_render_record(v) == seg_id() + p0);
    lemma_skip_lit(seg_id(), p0);
    lemma_take_qstring(v.id, p0s);
    lemma_skip_lit(seg_sender(), p1);
    lemma_take_qstring(v.sender_id, p1s);
    lemma_skip_lit(seg_status(), p2);
    lemma_take_status_json(v.status, p2s);
    lemma_skip_lit(seg_request(), p3);
    lemma_take_qstring(v.request.reciever_id, p3s);
    lemma_skip_lit(seg_amount(), p4);
    lemma_take_qstring(v.request.amount, p4s);
    lemma_skip_lit(seg_memo(), p5);
    lemma_take_opt_json(v.request.memo, p5s);
    lemma_skip_lit(seg_txn_hash(), p6);
    lemma_take_opt_json(v.txn_hash, p6s);
    lemma_skip_lit(seg_error(), p7);
    lemma_take_opt_json(v.error_message, p8);
    lemma_skip_lit(seg_created(), p9);
    assert(!is_digit_char('}'));
    lemma_take_u64(v.created_at, p10);
    lemma_skip_lit(seg_close(), Seq::<char>::empty());
    assert(seg_close() + Seq::<char>::empty() =~= p10);
    assert(spec_parse_record(spec_render_record(v)) == Some(v));
}

} // verus!

verus! {


/// The literal texts of the record grammar, tied to their segment forms.
proof fn lemma_lit_segs()
    ensures
        "{\"id\":"@ == seg_id(),
        ",\"sender_id\":"@ == seg_sender(),
        ",\"status\":"@ == seg_status(),
        ",\"request\":{\"reciever_id\":"@ == seg_request(),
        ",\"amount\":"@ == seg_amount(),
        ",\"memo\":"@ == seg_memo(),
        "},\"txn_hash\":"@ == seg_txn_hash(),
        ",\"error_message\":"@ == seg_error(),
        ",\"created_at\":"@ == seg_created(),
        "}"@ == seg_close(),
{
    reveal_strlit("{\"id\":");
    assert("{\"id\":"@ =~= seg_id());
    reveal_strlit(",\"sender_id\":");
    assert(",\"sender_id\":"@ =~= seg_sender());
    reveal_strlit(",\"status\":");
    assert(",\"status\":"@ =~= seg_status());
    reveal_strlit(",\"request\":{\"reciever_id\":");
    assert(",\"request\":{\"reciever_id\":"@ =~= seg_request());
    reveal_strlit(",\"amount\":");
    assert(",\"amount\":"@ =~= seg_amount());
    reveal_strlit(",\"memo\":");
    assert(",\"memo\":"@ =~= seg_memo());
    reveal_strlit("},\"txn_hash\":");
    assert("},\"txn_hash\":"@ =~= seg_txn_hash());
    reveal_strlit(",\"error_message\":");
    assert(",\"error_message\":"@ =~= seg_error());
    reveal_strlit(",\"created_at\":");
    assert(",\"created_at\":"@ =~= seg_created());
    reveal_strlit("}");
    assert("}"@ =~= seg_close());
}

/// The literal texts of the three status words, tied to their JSON forms.
proof fn lemma_lit_statuses()
    ensures
        "\"Queued\""@ == status_json(TransactionStatus::Queued),
        "\"Success\""@ == status_json(TransactionStatus::Success),
        "\"Failure\""@ == status_json(TransactionStatus::Failure),
{
    reveal_strlit("\"Queued\"");
    assert("\"Queued\""@ =~= status_json(TransactionStatus::Queued));
    reveal_strlit("\"Success\"");
    assert("\"Success\""@ =~= status_json(TransactionStatus::Success));
    reveal_strlit("\"Failure\"");
    assert("\"Failure\""@ =~= status_json(TransactionStatus::Failure));
}

/// Render a record into its serialized JSON form.
pub fn encode_record(r: &TransactionRecord) -> (out: String)
    ensures
        out@ == spec_render_record(r@),
{
    proof {
        reveal(spec_render_record);
    }
    let mut v: Vec<char> = Vec::new();
    push_lit(&mut v, "{\"id\":");
    proof {
        reveal_strlit("{\"id\":");
        assert("{\"id\":"@ =~= seg_id());
        assert(Seq::<char>::empty() + seg_id() =~= seg_id());
    }
    push_quoted(&mut v, r.id.as_str());
    push_lit(&mut v, ",\"sender_id\":");
    proof {
        reveal_strlit(",\"sender_id\":");
        assert(",\"sender_id\":"@ =~= seg_sender());
    }
    push_quoted(&mut v, r.sender_id.as_str());
    push_lit(&mut v, ",\"status\":");
    proof {
        reveal_strlit(",\"status\":");
        assert(",\"status\":"@ =~= seg_status());
    }
    match r.status {
        TransactionStatus::Queued => {
            push_lit(&mut v, "\"Queued\"");
            proof {
                reveal_strlit("\"Queued\"");
                assert("\"Queued\""@ =~= status_json(TransactionStatus::Queued));
            }
        },
        TransactionStatus::Success => {
            push_lit(&mut v, "\"Success\"");
            proof {
                reveal_strlit("\"Success\"");
                assert("\"Success\""@ =~= status_json(TransactionStatus::Success));
            }
        },
        TransactionStatus::Failure => {
            push_lit(&mut v, "\"Failure\"");
            proof {
                reveal_strlit("\"Failure\"");
                assert("\"Failure\""@ =~= status_json(TransactionStatus::Failure));
            }
        },
    }
    push_lit(&mut v, ",\"request\":{\"reciever_id\":");
    proof {
        reveal_strlit(",\"request\":{\"reciever_id\":");
        assert(",\"request\":{\"reciever_id\":"@ =~= seg_request());
    }
    push_quoted(&mut v, r.request.reciever_id.as_str());
    push_lit(&mut v, ",\"amount\":");
    proof {
        reveal_strlit(",\"amount\":");
        assert(",\"amount\":"@ =~= seg_amount());
    }
    push_quoted(&mut v, r.request.amount.as_str());
    push_lit(&mut v, ",\"memo\":");
    proof {
        reveal_strlit(",\"memo\":");
        assert(",\"memo\":"@ =~= seg_memo());
    }
    push_opt_json(&mut v, &r.request.memo);
    push_lit(&mut v, "},\"txn_hash\":");
    proof {
        reveal_strlit("},\"txn_hash\":");
        assert("},\"txn_hash\":"@ =~= seg_txn_hash());
    }
    push_opt_json(&mut v, &r.txn_hash);
    push_lit(&mut v, ",\"error_message\":");
    proof {
        reveal_strlit(",\"error_message\":");
        assert(",\"error_message\":"@ =~= seg_error());
    }
    push_opt_json(&mut v, &r.error_message);
    push_lit(&mut v, ",\"created_at\":");
    proof {
        reveal_strlit(",\"created_at\":");
        assert(",\"created_at\":"@ =~= seg_created());
    }
    push_dec_digits(r.created_at as u128, &mut v);
    push_lit(&mut v, "}");
    proof {
        reveal_strlit("}");
        assert("}"@ =~= seg_close());
        assert(v@ == spec_render_record(r@));
    }
    chars_to_string(&v)
}

/// Parse the serialized JSON form of a record.
#[verifier::rlimit(100)]
pub fn parse_record(s: &str) -> (r: Option<TransactionRecord>)
    ensures
        r is Some <==> spec_parse_record(s@) is Some,
        r is Some ==> Some(r->0@) == spec_parse_record(s@),
{
    let v = crate::text::str_chars_vec(s);
    proof {
        reveal(spec_parse_record);
        reveal(spec_parse_record_tail);
        assert(v@.skip(0) =~= s@);
        lemma_lit_segs();
        lemma_lit_statuses();
    }
    let i1 = match scan_lit(&v, 0, "{\"id\":") {
        Some(j) => j,
        None => {
            return None;
        },
    };
    let (id_chars, i2) = match scan_qstring(&v, i1) {
        Some(p) => p,
        None => {
            return None;
        },
    };
    let i3 = match scan_lit(&v, i2, ",\"sender_id\":") {
        Some(j) => j,
        None => {
            return None;
        },
    };
    let (sender_chars, i4) = match scan_qstring(&v, i3) {
        Some(p) => p,
        None => {
            return None;
        },
    };
    let i5 = match scan_lit(&v, i4, ",\"status\":") {
        Some(j) => j,
        None => {
            return None;
        },
    };
    let (status, i6) = match scan_status(&v, i5) {
        Some(p) => p,
        None => {
            return None;
        },
    };
    let i7 = match scan_lit(&v, i6, ",\"request\":{\"reciever_id\":") {
        Some(j) => j,
        None => {
            return None;
        },
    };
    let (reciever_chars, i8) = match scan_qstring(&v, i7) {
        Some(p) => p,
        None => {
            return None;
        },
    };
    let i9 = match scan_lit(&v, i8, ",\"amount\":") {
        Some(j) => j,
        None => {
            return None;
        },
    };
    let (amount_chars, i10) = match scan_qstring(&v, i9) {
        Some(p) => p,
        None => {
            return None;
        },
    };
    let i11 = match scan_lit(&v, i10, ",\"memo\":") {
        Some(j) => j,
        None => {
            return None;
        },
    };
    let (memo_chars, i12) = match scan_opt_json(&v, i11) {
        Some(p) => p,
        None => {
            return None;
        },
    };
    let i13 = match scan_lit(&v, i12, "},\"txn_hash\":") {
        Some(j) => j,
        None => {
            return None;
        },
    };
    let (hash_chars, i14) = match scan_opt_json(&v, i13) {
        Some(p) => p,
        None => {
            return None;
        },
    };
    let i15 = match scan_lit(&v, i14, ",\"error_message\":") {
        Some(j) => j,
        None => {
            return None;
        },
    };
    let (error_chars, i16) = match scan_opt_json(&v, i15) {
        Some(p) => p,
        None => {
            return None;
        },
    };
    let i17 = match scan_lit(&v, i16, ",\"created_at\":") {
        Some(j) => j,
        None => {
            return None;
        },
    };
    let (created_at, i18) = match scan_u64(&v, i17) {
        Some(p) => p,
        None => {
            return None;
        },
    };
    let i19 = match scan_lit(&v, i18, "}") {
        Some(j) => j,
        None => {
            return None;
        },
    };
    if i19 != v.len() {
        proof {
            assert(v@.skip(i19 as int).len() != 0);
        }
        return None;
    }
    proof {
        assert(v@.skip(i19 as int).len() == 0);
    }
    let rec = TransactionRecord {
        id: chars_to_string(&id_chars),
        sender_id: chars_to_string(&sender_chars),
        status,
        request: TokenTransferRequest {
            reciever_id: chars_to_string(&reciever_chars),
            amount: chars_to_string(&amount_chars),
            memo: match &memo_chars {
                Some(m) => Some(chars_to_string(m)),
                None => None,
            },
        },
        txn_hash: match &hash_chars {
            Some(h) => Some(chars_to_string(h)),
            None => None,
        },
        error_message: match &error_chars {
            Some(e) => Some(chars_to_string(e)),
            None => None,
        },
        created_at,
    };
    Some(rec)
}

/// Scan a status at position `i`: one of the three quoted status words.
fn scan_status(v: &Vec<char>, i: usize) -> (r: Option<(TransactionStatus, usize)>)
    requires
        i <= v@.len(),
    ensures
        match r {
            Some(p) => p.1 <= v@.len() && take_status_json(v@.skip(i as int)) == Some(
                (p.0, v@.skip(p.1 as int)),
            ),
            None => take_status_json(v@.skip(i as int)) is None,
        },
{
    proof {
        reveal_strlit("\"Queued\"");
        assert("\"Queued\""@ =~= status_json(TransactionStatus::Queued));
        reveal_strlit("\"Success\"");
        assert("\"Success\""@ =~= status_json(TransactionStatus::Success));
        reveal_strlit("\"Failure\"");
        assert("\"Failure\""@ =~= status_json(TransactionStatus::Failure));
    }
    match scan_lit(v, i, "\"Queued\"") {
        Some(j) => Some((TransactionStatus::Queued, j)),
        None => match scan_lit(v, i, "\"Success\"") {
            Some(j) => Some((TransactionStatus::Success, j)),
            None => match scan_lit(v, i, "\"Failure\"") {
                Some(j) => Some((TransactionStatus::Failure, j)),
                None => None,
            },
        },
    }
}

/// Scan a decimal number that fits in 64 bits at position `i`.
fn scan_u64(v: &Vec<char>, i: usize) -> (r: Option<(u64, usize)>)
    requires
        i <= v@.len(),
    ensures
        match r {
            Some(p) => p.1 <= v@.len() && take_u64(v@.skip(i as int)) == Some(
                (p.0, v@.skip(p.1 as int)),
            ),
            None => take_u64(v@.skip(i as int)) is None,
        },
{
    let (ds, j) = scan_digits(v, i);
    if ds.len() == 0 {
        return None;
    }
    proof {
        lemma_take_digits_all(v@.skip(i as int));
    }
    match parse_u128_chars(&ds) {
        None => {
            proof {
                crate::digits::lemma_digits_value_nonneg(ds@);
            }
            None
        },
        Some(val) => {
            if val > 0xFFFF_FFFF_FFFF_FFFF {
                None
            } else {
                Some((val as u64, j))
            }
        },
    }
}

} // verus!
