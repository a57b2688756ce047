//! The read-only query surface over the status store: the store's key
//! layout, the status word of the filter endpoint, and the decoding of
//! multi-get results.

use vstd::prelude::*;
use vstd::string::StringExecFns;
use crate::record_json::spec_parse_record;
use crate::record_json::parse_record;
use crate::text::str_chars_vec;
use crate::store::filter_status;
use crate::types::RecordView;
use crate::types::TransactionRecord;
use crate::types::TransactionStatus;

verus! {

/// The store key holding a record: `txn:` before the record id.
pub fn txn_key(id: &str) -> (k: String)
    ensures
        k@ == "txn:"@ + id@,
{
    let p: String = "txn:".to_owned();
    p.concat(id)
}

/// The store key holding a receiver's id list: `user_txns:` before the
/// receiver.
pub fn user_txns_key(receiver: &str) -> (k: String)
    ensures
        k@ == "user_txns:"@ + receiver@,
{
    let p: String = "user_txns:".to_owned();
    p.concat(receiver)
}

/// A character lowered to its ASCII lower-case form; other characters are
/// untouched.
pub open spec fn ascii_lower_char(c: char) -> char {
    if 'A' <= c && c <= 'Z' {
        ((c as int) + 32) as char
    } else {
        c
    }
}

/// A character sequence lowered character by character.
pub open spec fn ascii_lower(s: Seq<char>) -> Seq<char> {
    Seq::new(s.len(), |i: int| ascii_lower_char(s[i]))
}

/// The lower-case word that selects a status on the filter endpoint.
pub open spec fn status_query_word(st: TransactionStatus) -> Seq<char> {
    match st {
        TransactionStatus::Queued => "queued"@,
        TransactionStatus::Success => "success"@,
        TransactionStatus::Failure => "failure"@,
    }
}

/// Parse the status word of the filter endpoint, ASCII case-insensitively.
/// Exactly the words whose lowered form is one of the three status words
/// are accepted.
pub fn parse_status(s: &str) -> (r: Option<TransactionStatus>)
    ensures
        match r {
            Some(st) => ascii_lower(s@) == status_query_word(st),
            None => {
                &&& ascii_lower(s@) != status_query_word(TransactionStatus::Queued)
                &&& ascii_lower(s@) != status_query_word(TransactionStatus::Success)
                &&& ascii_lower(s@) != status_query_word(TransactionStatus::Failure)
            },
        },
{
    let cs = str_chars_vec(s);
    let mut low: Vec<char> = Vec::new();
    let mut i: usize = 0;
    while i < cs.len()
        invariant
            0 <= i <= cs@.len(),
            cs@ == s@,
            low@ == ascii_lower(s@).take(i as int),
        decreases cs@.len() - i,
    {
        let c = cs[i];
        proof {
            vstd::utf8::char_is_scalar(c);
        }
        let lc: char = if c >= 'A' && c <= 'Z' {
            ((c as u32) + 32) as u8 as char
        } else {
            c
        };
        proof {
            assert(lc == ascii_lower_char(cs@[i as int]));
        }
        low.push(lc);
        proof {
            assert(low@ =~= ascii_lower(s@).take(i + 1));
        }
        i = i + 1;
    }
    proof {
        assert(low@ =~= ascii_lower(s@));
    }
    let qw = str_chars_vec("queued");
    if chars_eq(&low, &qw) {
        return Some(TransactionStatus::Queued);
    }
    let sw = str_chars_vec("success");
    if chars_eq(&low, &sw) {
        return Some(TransactionStatus::Success);
    }
    let fw = str_chars_vec("failure");
    if chars_eq(&low, &fw) {
        return Some(TransactionStatus::Failure);
    }
    None
}

/// Element-for-element equality of two character vectors.
fn chars_eq(a: &Vec<char>, b: &Vec<char>) -> (r: bool)
    ensures
        r == (a@ == b@),
{
    if a.len() != b.len() {
        return false;
    }
    let mut i: usize = 0;
    while i < a.len()
        invariant
            0 <= i <= a@.len(),
            a@.len() == b@.len(),
            forall|t: int| 0 <= t < i ==> a@[t] == b@[t],
        decreases a@.len() - i,
    {
        if a[i] != b[i] {
            return false;
        }
        i = i + 1;
    }
    proof {
        assert(a@ =~= b@);
    }
    true
}

/// The records a multi-get result decodes to: present entries that parse,
/// in result order.
pub open spec fn decoded_records(s: Seq<Option<Seq<char>>>) -> Seq<RecordView>
    decreases s.len(),
{
    if s.len() == 0 {
        Seq::empty()
    } else {
        let rest = decoded_records(s.drop_last());
        match s.last() {
            Some(j) => match spec_parse_record(j) {
                Some(v) => rest.push(v),
                None => rest,
            },
            None => rest,
        }
    }
}

/// Decode a multi-get result: deserialize each present entry, skipping the
/// missing and the malformed, preserving order.
pub fn decode_records(jsons: &Vec<Option<String>>) -> (out: Vec<TransactionRecord>)
    ensures
        out@.map_values(|r: TransactionRecord| r@) == decoded_records(
            jsons@.map_values(
                |o: Option<String>|
                    match o {
                        Some(j) => Some(j@),
                        None => None,
                    },
            ),
        ),
{
    let ghost jv = jsons@.map_values(
        |o: Option<String>|
            match o {
                Some(j) => Some(j@),
                None => None,
            },
    );
    let mut out: Vec<TransactionRecord> = Vec::new();
    let mut i: usize = 0;
    proof {
        assert(jv.take(0) =~= Seq::<Option<Seq<char>>>::empty());
    }
    while i < jsons.len()
        invariant
            0 <= i <= jsons@.len(),
            jv == jsons@.map_values(
                |o: Option<String>|
                    match o {
                        Some(j) => Some(j@),
                        None => None,
                    },
            ),
            out@.map_values(|r: TransactionRecord| r@) == decoded_records(jv.take(i as int)),
        decreases jsons@.len() - i,
    {
        proof {
            assert(jv.take(i + 1).drop_last() =~= jv.take(i as int));
            assert(jv.take(i + 1).last() == jv[i as int]);
        }
        let ghost prevout = out@;
        match &jsons[i] {
            Some(j) => {
                match parse_record(j.as_str()) {
                    Some(rec) => {
                        out.push(rec);
                        proof {
                            assert(out@.map_values(|r: TransactionRecord| r@)
                                =~= prevout.map_values(|r: TransactionRecord| r@).push(rec@));
                        }
                    },
                    None => {},
                }
            },
            None => {},
        }
        i = i + 1;
    }
    proof {
        assert(jv.take(i as int) =~= jv);
    }
    out
}

/// Keep only the records of one status, in order: the filter of the
/// status endpoint, applied after decoding.
pub fn filter_records(records: &Vec<TransactionRecord>, status: TransactionStatus) -> (out: Vec<
    TransactionRecord,
>)
    ensures
        out@.map_values(|r: TransactionRecord| r@) == filter_status(
            records@.map_values(|r: TransactionRecord| r@),
            status,
        ),
{
    let ghost rv = records@.map_values(|r: TransactionRecord| r@);
    let mut out: Vec<TransactionRecord> = Vec::new();
    let mut i: usize = 0;
    proof {
        assert(rv.take(0) =~= Seq::<RecordView>::empty());
    }
    while i < records.len()
        invariant
            0 <= i <= records@.len(),
            rv == records@.map_values(|r: TransactionRecord| r@),
            out@.map_values(|r: TransactionRecord| r@) == filter_status(
                rv.take(i as int),
                status,
            ),
        decreases records@.len() - i,
    {
        proof {
            assert(rv.take(i + 1).drop_last() =~= rv.take(i as int));
            assert(rv.take(i + 1).last() == rv[i as int]);
        }
        let ghost prevout = out@;
        if records[i].status == status {
            out.push(records[i].clone());
            proof {
                assert(out@.map_values(|r: TransactionRecord| r@) =~= prevout.map_values(
                    |r: TransactionRecord| r@,
                ).push(rv[i as int]));
            }
        }
        i = i + 1;
    }
    proof {
        assert(rv.take(i as int) =~= rv);
    }
    out
}

} // verus!
