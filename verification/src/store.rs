//! The status store model: per-record storage under the record id, and
//! per-receiver id lists, with the lookup, listing and scan operations of
//! the query surface.  Records are held in their serialized JSON form, as
//! the external key-value store holds them.

use vstd::prelude::*;
use crate::record_json::spec_parse_record;
use crate::record_json::spec_render_record;
use crate::record_json::encode_record;
use crate::record_json::parse_record;
use crate::record_json::lemma_parse_render_record;
use crate::types::PaginatedTransactionResponse;
use crate::types::RecordView;
use crate::types::TransactionRecord;
use crate::types::TransactionStatus;

verus! {

/// The map held by an association list, later entries overriding earlier
/// ones (keys are in fact unique under the store's invariant).
pub open spec fn entries_map(s: Seq<(String, String)>) -> Map<Seq<char>, Seq<char>>
    decreases s.len(),
{
    if s.len() == 0 {
        Map::empty()
    } else {
        entries_map(s.drop_last()).insert(s.last().0@, s.last().1@)
    }
}

/// Whether the keys of an association list are pairwise distinct.
pub open spec fn keys_unique(s: Seq<(String, String)>) -> bool {
    forall|i: int, j: int| 0 <= i < j < s.len() ==> s[i].0@ != s[j].0@
}

/// Each entry of a unique-keyed association list is in its map.
proof fn lemma_entries_map_index(s: Seq<(String, String)>, i: int)
    requires
        keys_unique(s),
        0 <= i < s.len(),
    ensures
        entries_map(s).contains_key(s[i].0@),
        entries_map(s)[s[i].0@] == s[i].1@,
    decreases s.len(),
{
    if i == s.len() - 1 {
    } else {
        assert(s.drop_last()[i] == s[i]);
        lemma_entries_map_index(s.drop_last(), i);
        assert(s[i].0@ != s.last().0@);
    }
}

/// A key matching no entry is not in the map.
proof fn lemma_entries_map_absent(s: Seq<(String, String)>, k: Seq<char>)
    requires
        forall|i: int| 0 <= i < s.len() ==> s[i].0@ != k,
    ensures
        !entries_map(s).contains_key(k),
    decreases s.len(),
{
    if s.len() > 0 {
        assert forall|i: int| 0 <= i < s.drop_last().len() implies s.drop_last()[i].0@ != k by {
            assert(s.drop_last()[i] == s[i]);
        }
        lemma_entries_map_absent(s.drop_last(), k);
    }
}

/// Updating one entry of a unique-keyed association list in place updates
/// its map pointwise.
proof fn lemma_entries_map_update(s: Seq<(String, String)>, i: int, e: (String, String))
    requires
        keys_unique(s),
        0 <= i < s.len(),
        e.0@ == s[i].0@,
    ensures
        entries_map(s.update(i, e)) == entries_map(s).insert(e.0@, e.1@),
    decreases s.len(),
{
    let t = s.update(i, e);
    if i == s.len() - 1 {
        assert(t.drop_last() =~= s.drop_last());
        assert(t.last() == e);
        assert(entries_map(t) =~= entries_map(s).insert(e.0@, e.1@));
    } else {
        assert(t.drop_last() =~= s.drop_last().update(i, e));
        assert(s.drop_last()[i] == s[i]);
        lemma_entries_map_update(s.drop_last(), i, e);
        assert(t.last() == s.last());
        assert(e.0@ != s.last().0@);
        assert(entries_map(t) =~= entries_map(s).insert(e.0@, e.1@));
    }
}

/// The records that a sequence of serialized entries holds, in entry order,
/// skipping any entry that does not parse.
pub open spec fn parsed_records(s: Seq<(String, String)>) -> Seq<RecordView>
    decreases s.len(),
{
    if s.len() == 0 {
        Seq::empty()
    } else {
        match spec_parse_record(s.last().1@) {
            Some(v) => parsed_records(s.drop_last()).push(v),
            None => parsed_records(s.drop_last()),
        }
    }
}

/// The status store: serialized records keyed by record id, and the
/// newest-first id lists keyed by receiver.
pub struct StatusStore {
    entries: Vec<(String, String)>,
    user_lists: Vec<(String, Vec<String>)>,
}

impl StatusStore {
    /// The store's record map: serialized record text under each id.
    pub closed spec fn records_json(self) -> Map<Seq<char>, Seq<char>> {
        entries_map(self.entries@)
    }

    /// The store's per-receiver id lists, newest first.
    pub closed spec fn user_txns(self, receiver: Seq<char>) -> Seq<Seq<char>> {
        user_list_of(self.user_lists@, receiver)
    }

    /// The store's records in entry order, oldest first.
    pub closed spec fn all_records(self) -> Seq<RecordView> {
        parsed_records(self.entries@)
    }

    /// The store's structural invariant: record ids and receivers each
    /// appear at most once as keys.
    pub closed spec fn wf(self) -> bool {
        &&& keys_unique(self.entries@)
        &&& forall|i: int, j: int|
            0 <= i < j < self.user_lists@.len() ==> self.user_lists@[i].0@
                != self.user_lists@[j].0@
        &&& forall|i: int|
            0 <= i < self.entries@.len() && spec_parse_record(self.entries@[i].1@) is Some
                ==> (#[trigger] spec_parse_record(self.entries@[i].1@))->0.id
                == self.entries@[i].0@
    }

    /// An empty store.
    pub fn new() -> (s: Self)
        ensures
            s.wf(),
            s.records_json() == Map::<Seq<char>, Seq<char>>::empty(),
            forall|r: Seq<char>| s.user_txns(r) == Seq::<Seq<char>>::empty(),
    {
        let s = StatusStore { entries: Vec::new(), user_lists: Vec::new() };
        proof {
            assert(s.records_json() =~= Map::<Seq<char>, Seq<char>>::empty());
        }
        s
    }

    /// Store a record under its id, serialized; an existing record under
    /// the same id is overwritten.  The id lists are untouched.
    pub fn put_record(&mut self, r: &TransactionRecord)
        requires
            old(self).wf(),
        ensures
            final(self).wf(),
            final(self).records_json() == old(self).records_json().insert(
                r@.id,
                spec_render_record(r@),
            ),
            forall|rc: Seq<char>| final(self).user_txns(rc) == old(self).user_txns(rc),
    {
        let json = encode_record(r);
        let id = clone_string(&r.id);
        let ghost idv = id@;
        let ghost jsonv = json@;
        let ghost s0 = self.entries@;
        let ghost u0 = self.user_lists@;
        let mut i: usize = 0;
        while i < self.entries.len()
            invariant
                self.entries@ == s0,
                self.user_lists@ == u0,
                old(self).entries@ == s0,
                old(self).user_lists@ == u0,
                old(self).wf(),
                keys_unique(s0),
                0 <= i <= s0.len(),
                forall|t: int| 0 <= t < i ==> s0[t].0@ != idv,
                idv == r.id@,
                id@ == idv,
                json@ == jsonv,
                jsonv == spec_render_record(r@),
            decreases s0.len() - i,
        {
            if string_eq(&self.entries[i].0, &r.id) {
                self.entries.set(i, (id, json));
                proof {
                    assert(s0[i as int].0@ == r@.id);
                    let e = self.entries@[i as int];
                    assert(e.0@ == idv && e.1@ == jsonv);
                    assert(self.entries@ =~= s0.update(i as int, e));
                    lemma_entries_map_update(s0, i as int, e);
                    assert forall|a: int, b: int|
                        0 <= a < b < self.entries@.len() implies self.entries@[a].0@
                        != self.entries@[b].0@ by {
                        assert(self.entries@[a].0@ == s0[a].0@);
                        assert(self.entries@[b].0@ == s0[b].0@);
                    }
                    lemma_parse_render_record(r@);
                    assert forall|t: int|
                        0 <= t < self.entries@.len() && spec_parse_record(
                            self.entries@[t].1@,
                        ) is Some implies (#[trigger] spec_parse_record(
                        self.entries@[t].1@,
                    ))->0.id == self.entries@[t].0@ by {
                        if t != i {
                            assert(self.entries@[t] == s0[t]);
                        }
                    }
                }
                return ;
            }
            i = i + 1;
        }
        self.entries.push((id, json));
        proof {
            let e = self.entries@.last();
            assert(e.0@ == idv && e.1@ == jsonv);
            assert(self.entries@.drop_last() =~= s0);
            assert(entries_map(self.entries@) == entries_map(s0).insert(idv, jsonv));
            lemma_parse_render_record(r@);
            assert forall|t: int|
                0 <= t < self.entries@.len() && spec_parse_record(
                    self.entries@[t].1@,
                ) is Some implies (#[trigger] spec_parse_record(self.entries@[t].1@))->0.id
                == self.entries@[t].0@ by {
                if t < s0.len() {
                    assert(self.entries@[t] == s0[t]);
                }
            }
            assert forall|a: int, b: int|
                0 <= a < b < self.entries@.len() implies self.entries@[a].0@
                != self.entries@[b].0@ by {
                if b < s0.len() {
                    assert(self.entries@[a] == s0[a] && self.entries@[b] == s0[b]);
                } else {
                    assert(self.entries@[a] == s0[a]);
                    assert(self.entries@[b].0@ == idv);
                    assert(s0[a].0@ != idv);
                }
            }
        }
    }

    /// Look a record up by id and deserialize it.  Exactly the ids that
    /// hold a parseable record yield one.
    pub fn get_record(&self, id: &str) -> (r: Option<TransactionRecord>)
        requires
            self.wf(),
        ensures
            match r {
                Some(rec) => self.records_json().contains_key(id@) && spec_parse_record(
                    self.records_json()[id@],
                ) == Some(rec@) && rec@.id == id@,
                None => !self.records_json().contains_key(id@) || spec_parse_record(
                    self.records_json()[id@],
                ) is None,
            },
    {
        let mut i: usize = 0;
        while i < self.entries.len()
            invariant
                self.wf(),
                0 <= i <= self.entries@.len(),
                forall|t: int| 0 <= t < i ==> self.entries@[t].0@ != id@,
            decreases self.entries@.len() - i,
        {
            if str_eq_string(id, &self.entries[i].0) {
                proof {
                    lemma_entries_map_index(self.entries@, i as int);
                }
                return parse_record(self.entries[i].1.as_str());
            }
            i = i + 1;
        }
        proof {
            lemma_entries_map_absent(self.entries@, id@);
        }
        None
    }
}

/// The newest-first ids of the records in `s` whose receiver is `rc`:
/// what the receiver's id list must hold for the store to be consistent.
pub open spec fn ids_for_receiver(s: Seq<(String, String)>, rc: Seq<char>) -> Seq<Seq<char>>
    decreases s.len(),
{
    if s.len() == 0 {
        Seq::empty()
    } else {
        match spec_parse_record(s.last().1@) {
            Some(v) => if v.request.reciever_id == rc {
                seq![s.last().0@] + ids_for_receiver(s.drop_last(), rc)
            } else {
                ids_for_receiver(s.drop_last(), rc)
            },
            None => ids_for_receiver(s.drop_last(), rc),
        }
    }
}

/// The records an id list denotes in a record map, in list order, skipping
/// ids that are absent or do not parse.
pub open spec fn records_of_ids(m: Map<Seq<char>, Seq<char>>, ids: Seq<Seq<char>>) -> Seq<
    RecordView,
>
    decreases ids.len(),
{
    if ids.len() == 0 {
        Seq::empty()
    } else {
        let rest = records_of_ids(m, ids.drop_first());
        if m.contains_key(ids[0]) && spec_parse_record(m[ids[0]]) is Some {
            seq![spec_parse_record(m[ids[0]])->0] + rest
        } else {
            rest
        }
    }
}

/// The records of `rs` whose status is `st`, in order.
pub open spec fn filter_status(rs: Seq<RecordView>, st: TransactionStatus) -> Seq<RecordView>
    decreases rs.len(),
{
    if rs.len() == 0 {
        Seq::empty()
    } else if rs.last().status == st {
        filter_status(rs.drop_last(), st).push(rs.last())
    } else {
        filter_status(rs.drop_last(), st)
    }
}

/// Parsing splits over concatenation of entry sequences.
proof fn lemma_parsed_records_append(a: Seq<(String, String)>, b: Seq<(String, String)>)
    ensures
        parsed_records(a + b) == parsed_records(a) + parsed_records(b),
    decreases b.len(),
{
    if b.len() == 0 {
        assert(a + b =~= a);
        assert(parsed_records(a) + Seq::<RecordView>::empty() =~= parsed_records(a));
    } else {
        assert((a + b).drop_last() =~= a + b.drop_last());
        assert((a + b).last() == b.last());
        lemma_parsed_records_append(a, b.drop_last());
        match spec_parse_record(b.last().1@) {
            Some(v) => {
                assert((parsed_records(a) + parsed_records(b.drop_last())).push(v)
                    =~= parsed_records(a) + parsed_records(b.drop_last()).push(v));
            },
            None => {},
        }
    }
}

/// Each entry of a unique-keyed user-list sequence gives its list.
proof fn lemma_user_list_index(s: Seq<(String, Vec<String>)>, i: int)
    requires
        forall|a: int, b: int| 0 <= a < b < s.len() ==> s[a].0@ != s[b].0@,
        0 <= i < s.len(),
    ensures
        user_list_of(s, s[i].0@) == s[i].1@.map_values(|v: String| v@),
    decreases s.len(),
{
    if i == s.len() - 1 {
    } else {
        assert(s[i].0@ != s.last().0@);
        assert(s.drop_last()[i] == s[i]);
        assert forall|a: int, b: int|
            0 <= a < b < s.drop_last().len() implies s.drop_last()[a].0@
            != s.drop_last()[b].0@ by {
            assert(s.drop_last()[a] == s[a] && s.drop_last()[b] == s[b]);
        }
        lemma_user_list_index(s.drop_last(), i);
    }
}

/// A receiver matching no entry has the empty list.
proof fn lemma_user_list_absent(s: Seq<(String, Vec<String>)>, rc: Seq<char>)
    requires
        forall|i: int| 0 <= i < s.len() ==> s[i].0@ != rc,
    ensures
        user_list_of(s, rc) == Seq::<Seq<char>>::empty(),
    decreases s.len(),
{
    if s.len() > 0 {
        assert forall|i: int| 0 <= i < s.drop_last().len() implies s.drop_last()[i].0@ != rc by {
            assert(s.drop_last()[i] == s[i]);
        }
        lemma_user_list_absent(s.drop_last(), rc);
    }
}

/// Updating one entry of a unique-keyed user-list sequence in place changes
/// only that receiver's list.
proof fn lemma_user_list_update(
    s: Seq<(String, Vec<String>)>,
    i: int,
    e: (String, Vec<String>),
    rc: Seq<char>,
)
    requires
        forall|a: int, b: int| 0 <= a < b < s.len() ==> s[a].0@ != s[b].0@,
        0 <= i < s.len(),
        e.0@ == s[i].0@,
    ensures
        user_list_of(s.update(i, e), rc) == if rc == e.0@ {
            e.1@.map_values(|v: String| v@)
        } else {
            user_list_of(s, rc)
        },
    decreases s.len(),
{
    let t = s.update(i, e);
    if i == s.len() - 1 {
        assert(t.drop_last() =~= s.drop_last());
        assert(t.last() == e);
        if rc != e.0@ {
        }
    } else {
        assert(t.drop_last() =~= s.drop_last().update(i, e));
        assert(t.last() == s.last());
        assert(s.drop_last()[i] == s[i]);
        assert forall|a: int, b: int|
            0 <= a < b < s.drop_last().len() implies s.drop_last()[a].0@
            != s.drop_last()[b].0@ by {
            assert(s.drop_last()[a] == s[a] && s.drop_last()[b] == s[b]);
        }
        lemma_user_list_update(s.drop_last(), i, e, rc);
        assert(e.0@ != s.last().0@);
    }
}

/// Updating one record in place, with the id and the parsed receiver kept,
/// leaves every receiver's owed id list unchanged.
proof fn lemma_ids_for_receiver_update(
    s: Seq<(String, String)>,
    i: int,
    e: (String, String),
    rc: Seq<char>,
)
    requires
        0 <= i < s.len(),
        e.0@ == s[i].0@,
        spec_parse_record(s[i].1@) is Some,
        spec_parse_record(e.1@) is Some,
        spec_parse_record(e.1@)->0.request.reciever_id == spec_parse_record(
            s[i].1@,
        )->0.request.reciever_id,
    ensures
        ids_for_receiver(s.update(i, e), rc) == ids_for_receiver(s, rc),
    decreases s.len(),
{
    let t = s.update(i, e);
    if i == s.len() - 1 {
        assert(t.drop_last() =~= s.drop_last());
        assert(t.last() == e);
    } else {
        assert(t.drop_last() =~= s.drop_last().update(i, e));
        assert(t.last() == s.last());
        assert(s.drop_last()[i] == s[i]);
        lemma_ids_for_receiver_update(s.drop_last(), i, e, rc);
    }
}

impl StatusStore {
    /// The store is consistent when every receiver's id list holds exactly
    /// the ids of the stored records addressed to that receiver, newest
    /// first.
    pub closed spec fn consistent(self) -> bool {
        forall|rc: Seq<char>| self.user_txns(rc) == self.owed_ids(rc)
    }

    /// The ids the store owes a receiver's list: those of its stored
    /// records addressed to that receiver, newest first.
    pub closed spec fn owed_ids(self, rc: Seq<char>) -> Seq<Seq<char>> {
        ids_for_receiver(self.entries@, rc)
    }

    /// How many records the store holds, stale or not.
    pub closed spec fn entry_count(self) -> nat {
        self.entries@.len()
    }

    /// The parsed records stored at entry positions `lo` (inclusive) to
    /// `hi` (exclusive), in order.
    pub closed spec fn window_records(self, lo: int, hi: int) -> Seq<RecordView> {
        parsed_records(self.entries@.subrange(lo, hi))
    }

    /// Prepend an id to a receiver's list: the list gains the id at its
    /// newest end, other receivers and the records are untouched.
    pub fn append_for_user(&mut self, receiver: &String, id: &String)
        requires
            old(self).wf(),
        ensures
            final(self).wf(),
            final(self).records_json() == old(self).records_json(),
            final(self).all_records() == old(self).all_records(),
            final(self).entry_count() == old(self).entry_count(),
            forall|rc: Seq<char>| final(self).owed_ids(rc) == old(self).owed_ids(rc),
            final(self).user_txns(receiver@) == seq![id@] + old(self).user_txns(receiver@),
            forall|rc: Seq<char>|
                rc != receiver@ ==> final(self).user_txns(rc) == old(self).user_txns(rc),
    {
        let ghost s0 = self.entries@;
        let ghost u0 = self.user_lists@;
        let idc = clone_string(id);
        let ghost idv = idc@;
        let mut i: usize = 0;
        while i < self.user_lists.len()
            invariant
                self.entries@ == s0,
                self.user_lists@ == u0,
                old(self).entries@ == s0,
                old(self).user_lists@ == u0,
                old(self).wf(),
                0 <= i <= u0.len(),
                forall|t: int| 0 <= t < i ==> u0[t].0@ != receiver@,
                idc@ == idv,
                idv == id@,
            decreases u0.len() - i,
        {
            if string_eq(&self.user_lists[i].0, receiver) {
                let mut entry = self.user_lists.remove(i);
                entry.1.insert(0, idc);
                self.user_lists.insert(i, entry);
                proof {
                    let e = self.user_lists@[i as int];
                    assert(e.0@ == receiver@);
                    assert(e.1@ == u0[i as int].1@.insert(0, e.1@[0]));
                    assert(e.1@[0]@ == idv);
                    assert(self.user_lists@ =~= u0.update(i as int, e));
                    assert(e.1@.map_values(|v: String| v@) =~= seq![idv] + u0[
                        i as int
                    ].1@.map_values(|v: String| v@));
                    lemma_user_list_index(u0, i as int);
                    assert forall|rc: Seq<char>| #[trigger] user_list_of(self.user_lists@, rc)
                        == if rc == receiver@ {
                        seq![idv] + user_list_of(u0, rc)
                    } else {
                        user_list_of(u0, rc)
                    } by {
                        lemma_user_list_update(u0, i as int, e, rc);
                    }
                    assert forall|a: int, b: int|
                        0 <= a < b < self.user_lists@.len() implies self.user_lists@[a].0@
                        != self.user_lists@[b].0@ by {
                        assert(self.user_lists@[a].0@ == u0[a].0@);
                        assert(self.user_lists@[b].0@ == u0[b].0@);
                    }
                    assert forall|rc: Seq<char>| #[trigger] self.owed_ids(rc) == old(
                        self,
                    ).owed_ids(rc) by {}
                }
                return ;
            }
            i = i + 1;
        }
        let mut ids: Vec<String> = Vec::new();
        ids.push(idc);
        self.user_lists.push((clone_string(receiver), ids));
        proof {
            let e = self.user_lists@.last();
            assert(e.0@ == receiver@);
            assert(e.1@.map_values(|v: String| v@) =~= seq![idv]);
            assert(self.user_lists@.drop_last() =~= u0);
            lemma_user_list_absent(u0, receiver@);
            assert(seq![idv] + user_list_of(u0, receiver@) =~= seq![idv]);
            assert forall|rc: Seq<char>|
                rc != receiver@ implies #[trigger] user_list_of(self.user_lists@, rc)
                == user_list_of(u0, rc) by {}
            assert forall|a: int, b: int|
                0 <= a < b < self.user_lists@.len() implies self.user_lists@[a].0@
                != self.user_lists@[b].0@ by {
                if b < u0.len() {
                    assert(self.user_lists@[a] == u0[a] && self.user_lists@[b] == u0[b]);
                } else {
                    assert(self.user_lists@[a] == u0[a]);
                    assert(self.user_lists@[b].0@ == receiver@);
                }
            }
            assert forall|rc: Seq<char>| #[trigger] self.owed_ids(rc) == old(self).owed_ids(
                rc,
            ) by {}
        }
    }

    /// Admit a freshly created record: store it under its id and prepend
    /// its id to its receiver's list, in one step.  This is the persistence
    /// that admission fires; it keeps the store consistent.
    #[verifier::rlimit(100)]
    pub fn admit_to_store(&mut self, r: &TransactionRecord)
        requires
            old(self).wf(),
            old(self).consistent(),
            !old(self).records_json().contains_key(r@.id),
        ensures
            final(self).wf(),
            final(self).consistent(),
            final(self).records_json() == old(self).records_json().insert(
                r@.id,
                spec_render_record(r@),
            ),
            final(self).all_records() == old(self).all_records().push(r@),
            final(self).user_txns(r@.request.reciever_id) == seq![r@.id] + old(self).user_txns(
                r@.request.reciever_id,
            ),
            forall|rc: Seq<char>|
                rc != r@.request.reciever_id ==> final(self).user_txns(rc) == old(self).user_txns(
                    rc,
                ),
    {
        let json = encode_record(r);
        let id = clone_string(&r.id);
        let ghost idv = id@;
        let ghost jsonv = json@;
        let ghost s0 = self.entries@;
        proof {
            assert forall|t: int| 0 <= t < s0.len() implies s0[t].0@ != r@.id by {
                lemma_entries_map_index(s0, t);
            }
        }
        self.entries.push((id, json));
        let ghost s1 = self.entries@;
        proof {
            let e = s1.last();
            assert(e.0@ == idv && e.1@ == jsonv);
            assert(s1.drop_last() =~= s0);
            lemma_parse_render_record(r@);
            assert(spec_parse_record(jsonv) == Some(r@));
            assert(entries_map(s1) == entries_map(s0).insert(idv, jsonv));
            assert(parsed_records(s1) == parsed_records(s0).push(r@));
            assert forall|a: int, b: int| 0 <= a < b < s1.len() implies s1[a].0@ != s1[b].0@ by {
                if b < s0.len() {
                    assert(s1[a] == s0[a] && s1[b] == s0[b]);
                } else {
                    assert(s1[a] == s0[a]);
                    assert(s1[b].0@ == idv);
                    assert(s0[a].0@ != idv);
                }
            }
            assert forall|rc: Seq<char>| #[trigger] ids_for_receiver(s1, rc) == if rc
                == r@.request.reciever_id {
                seq![idv] + ids_for_receiver(s0, rc)
            } else {
                ids_for_receiver(s0, rc)
            } by {}
            assert forall|t: int|
                0 <= t < s1.len() && spec_parse_record(s1[t].1@) is Some implies (
            #[trigger] spec_parse_record(s1[t].1@))->0.id == s1[t].0@ by {
                if t < s0.len() {
                    assert(s1[t] == s0[t]);
                }
            }
        }
        let ghost mid = *self;
        self.append_for_user(&r.request.reciever_id, &r.id);
        proof {
            let rcv = r@.request.reciever_id;
            assert(mid.entries@ == s1);
            assert(mid.user_lists@ == old(self).user_lists@);
            assert forall|rc: Seq<char>| #[trigger] self.user_txns(rc) == self.owed_ids(rc) by {
                assert(self.owed_ids(rc) == mid.owed_ids(rc));
                assert(mid.owed_ids(rc) == ids_for_receiver(s1, rc));
                assert(mid.user_txns(rc) == old(self).user_txns(rc));
                assert(old(self).user_txns(rc) == old(self).owed_ids(rc));
                assert(old(self).owed_ids(rc) == ids_for_receiver(s0, rc));
                if rc == rcv {
                    assert(self.user_txns(rc) == seq![r@.id] + mid.user_txns(rc));
                    assert(ids_for_receiver(s1, rc) == seq![idv] + ids_for_receiver(s0, rc));
                } else {
                    assert(self.user_txns(rc) == mid.user_txns(rc));
                }
            }
        }
    }

    /// Overwrite an existing record in place, keeping its id and receiver:
    /// the reconciliation write of the worker.  Consistency is preserved
    /// because the receiver does not change.
    #[verifier::rlimit(100)]
    pub fn update_record(&mut self, r: &TransactionRecord)
        requires
            old(self).wf(),
            old(self).records_json().contains_key(r@.id),
            spec_parse_record(old(self).records_json()[r@.id]) is Some,
            spec_parse_record(old(self).records_json()[r@.id])->0.request.reciever_id
                == r@.request.reciever_id,
        ensures
            final(self).wf(),
            final(self).records_json() == old(self).records_json().insert(
                r@.id,
                spec_render_record(r@),
            ),
            forall|rc: Seq<char>| final(self).user_txns(rc) == old(self).user_txns(rc),
            old(self).consistent() ==> final(self).consistent(),
    {
        let json = encode_record(r);
        let id = clone_string(&r.id);
        let ghost idv = id@;
        let ghost jsonv = json@;
        let ghost s0 = self.entries@;
        let ghost u0 = self.user_lists@;
        let mut i: usize = 0;
        while i < self.entries.len()
            invariant
                self.entries@ == s0,
                self.user_lists@ == u0,
                old(self).entries@ == s0,
                old(self).user_lists@ == u0,
                old(self).wf(),
                old(self).records_json().contains_key(r@.id),
                spec_parse_record(old(self).records_json()[r@.id]) is Some,
                spec_parse_record(old(self).records_json()[r@.id])->0.request.reciever_id
                    == r@.request.reciever_id,
                0 <= i <= s0.len(),
                forall|t: int| 0 <= t < i ==> s0[t].0@ != idv,
                id@ == idv,
                json@ == jsonv,
                idv == r.id@,
                jsonv == spec_render_record(r@),
            decreases s0.len() - i,
        {
            if string_eq(&self.entries[i].0, &r.id) {
                self.entries.set(i, (id, json));
                proof {
                    assert(s0[i as int].0@ == r@.id);
                    let e = self.entries@[i as int];
                    assert(e.0@ == idv && e.1@ == jsonv);
                    assert(self.entries@ =~= s0.update(i as int, e));
                    lemma_entries_map_update(s0, i as int, e);
                    lemma_entries_map_index(s0, i as int);
                    assert(spec_parse_record(s0[i as int].1@) is Some);
                    lemma_parse_render_record(r@);
                    assert forall|a: int, b: int|
                        0 <= a < b < self.entries@.len() implies self.entries@[a].0@
                        != self.entries@[b].0@ by {
                        assert(self.entries@[a].0@ == s0[a].0@);
                        assert(self.entries@[b].0@ == s0[b].0@);
                    }
                    assert forall|rc: Seq<char>| #[trigger] ids_for_receiver(self.entries@, rc)
                        == ids_for_receiver(s0, rc) by {
                        lemma_ids_for_receiver_update(s0, i as int, e, rc);
                    }
                    if old(self).consistent() {
                        assert forall|rc: Seq<char>| #[trigger] self.user_txns(rc)
                            == self.owed_ids(rc) by {
                            assert(old(self).user_txns(rc) == old(self).owed_ids(rc));
                            assert(self.user_txns(rc) == old(self).user_txns(rc));
                            assert(old(self).owed_ids(rc) == ids_for_receiver(s0, rc));
                        }
                    }
                    assert forall|t: int|
                        0 <= t < self.entries@.len() && spec_parse_record(
                            self.entries@[t].1@,
                        ) is Some implies (#[trigger] spec_parse_record(
                        self.entries@[t].1@,
                    ))->0.id == self.entries@[t].0@ by {
                        if t != i {
                            assert(self.entries@[t] == s0[t]);
                        }
                    }
                }
                return ;
            }
            i = i + 1;
        }
        proof {
            lemma_entries_map_absent(s0, idv);
            assert(false);
        }
    }

    /// The full list of a receiver's records: the records its id list
    /// denotes, newest first, skipping ids that are absent or unreadable.
    pub fn list_by_receiver(&self, receiver: &String) -> (out: Vec<TransactionRecord>)
        requires
            self.wf(),
        ensures
            out@.map_values(|x: TransactionRecord| x@) == records_of_ids(
                self.records_json(),
                self.user_txns(receiver@),
            ),
    {
        let mut k: usize = 0;
        while k < self.user_lists.len()
            invariant
                self.wf(),
                0 <= k <= self.user_lists@.len(),
                forall|t: int| 0 <= t < k ==> self.user_lists@[t].0@ != receiver@,
            decreases self.user_lists@.len() - k,
        {
            if string_eq(&self.user_lists[k].0, receiver) {
                proof {
                    lemma_user_list_index(self.user_lists@, k as int);
                }
                let ids = &self.user_lists[k].1;
                let ghost idsv = self.user_txns(receiver@);
                let mut out: Vec<TransactionRecord> = Vec::new();
                let mut j: usize = 0;
                proof {
                    assert(idsv =~= ids@.map_values(|v: String| v@).skip(0));
                    assert(Seq::<RecordView>::empty() + records_of_ids(self.records_json(), idsv)
                        =~= records_of_ids(self.records_json(), idsv));
                }
                while j < ids.len()
                    invariant
                        self.wf(),
                        0 <= j <= ids@.len(),
                        ids@.map_values(|v: String| v@) == idsv,
                        records_of_ids(self.records_json(), idsv) == out@.map_values(
                            |x: TransactionRecord| x@,
                        ) + records_of_ids(self.records_json(), idsv.skip(j as int)),
                    decreases ids@.len() - j,
                {
                    let ghost rest = idsv.skip(j as int);
                    proof {
                        assert(rest[0] == idsv[j as int]);
                        assert(rest.drop_first() =~= idsv.skip(j + 1));
                    }
                    let ghost prevout = out@;
                    match self.get_record(ids[j].as_str()) {
                        Some(rec) => {
                            out.push(rec);
                            proof {
                                assert(out@.map_values(|x: TransactionRecord| x@)
                                    =~= prevout.map_values(|x: TransactionRecord| x@).push(rec@));
                                assert(records_of_ids(self.records_json(), rest) == seq![rec@]
                                    + records_of_ids(self.records_json(), rest.drop_first()));
                                assert(prevout.map_values(|x: TransactionRecord| x@) + (seq![rec@]
                                    + records_of_ids(self.records_json(), rest.drop_first()))
                                    =~= out@.map_values(|x: TransactionRecord| x@)
                                    + records_of_ids(self.records_json(), rest.drop_first()));
                            }
                        },
                        None => {
                            proof {
                                assert(records_of_ids(self.records_json(), rest) == records_of_ids(
                                    self.records_json(),
                                    rest.drop_first(),
                                ));
                            }
                        },
                    }
                    j = j + 1;
                }
                proof {
                    assert(idsv.skip(j as int).len() == 0);
                    assert(records_of_ids(self.records_json(), idsv.skip(j as int))
                        == Seq::<RecordView>::empty());
                    assert(out@.map_values(|x: TransactionRecord| x@)
                        + Seq::<RecordView>::empty() =~= out@.map_values(
                        |x: TransactionRecord| x@,
                    ));
                }
                return out;
            }
            k = k + 1;
        }
        proof {
            lemma_user_list_absent(self.user_lists@, receiver@);
        }
        Vec::new()
    }

    /// One scan step over the record keyspace: up to `count` entries from
    /// position `cursor`, parsed, with the cursor to resume from (zero when
    /// the end was reached).
    pub fn scan(&self, cursor: u64, count: u64) -> (out: PaginatedTransactionResponse)
        requires
            self.wf(),
        ensures
            ({
                let len = self.entry_count() as int;
                let start = if cursor <= len { cursor as int } else { len };
                let end = if cursor + count <= len { (cursor + count) as int } else { len };
                &&& out@.records == self.window_records(start, end)
                &&& out@.next_cursor == if end == len { 0int } else { end }
            }),
    {
        let len = self.entries.len();
        let start: usize = if cursor <= len as u64 { cursor as usize } else { len };
        let remaining: u64 = (len - start) as u64;
        let take: usize = if count <= remaining { count as usize } else { len - start };
        let end: usize = start + take;
        let mut out: Vec<TransactionRecord> = Vec::new();
        let mut j: usize = start;
        proof {
            assert(self.entries@.subrange(start as int, start as int)
                =~= Seq::<(String, String)>::empty());
        }
        while j < end
            invariant
                self.wf(),
                start <= j <= end <= self.entries@.len(),
                out@.map_values(|x: TransactionRecord| x@) == parsed_records(
                    self.entries@.subrange(start as int, j as int),
                ),
            decreases end - j,
        {
            let ghost prevout = out@;
            match parse_record(self.entries[j].1.as_str()) {
                Some(rec) => {
                    out.push(rec);
                    proof {
                        assert(self.entries@.subrange(start as int, j + 1).drop_last()
                            =~= self.entries@.subrange(start as int, j as int));
                        assert(out@.map_values(|x: TransactionRecord| x@) =~= prevout.map_values(
                            |x: TransactionRecord| x@,
                        ).push(rec@));
                    }
                },
                None => {
                    proof {
                        assert(self.entries@.subrange(start as int, j + 1).drop_last()
                            =~= self.entries@.subrange(start as int, j as int));
                    }
                },
            }
            j = j + 1;
        }
        let next: u64 = if end == len {
            0
        } else {
            end as u64
        };
        PaginatedTransactionResponse { next_cursor: next, records: out }
    }

    /// Every record of a given status, in entry order: the full scan with a
    /// filter that the status endpoint performs.
    pub fn list_by_status(&self, status: TransactionStatus) -> (out: Vec<TransactionRecord>)
        requires
            self.wf(),
        ensures
            out@.map_values(|x: TransactionRecord| x@) == filter_status(self.all_records(), status),
    {
        let mut out: Vec<TransactionRecord> = Vec::new();
        let mut j: usize = 0;
        proof {
            assert(self.entries@.take(0) =~= Seq::<(String, String)>::empty());
        }
        while j < self.entries.len()
            invariant
                self.wf(),
                0 <= j <= self.entries@.len(),
                out@.map_values(|x: TransactionRecord| x@) == filter_status(
                    parsed_records(self.entries@.take(j as int)),
                    status,
                ),
            decreases self.entries@.len() - j,
        {
            let ghost prevout = out@;
            proof {
                assert(self.entries@.take(j + 1).drop_last() =~= self.entries@.take(j as int));
            }
            match parse_record(self.entries[j].1.as_str()) {
                Some(rec) => {
                    let ghost prs = parsed_records(self.entries@.take(j as int));
                    proof {
                        assert(parsed_records(self.entries@.take(j + 1)) == prs.push(rec@));
                        assert(prs.push(rec@).drop_last() =~= prs);
                        assert(prs.push(rec@).last() == rec@);
                    }
                    if rec.status == status {
                        out.push(rec);
                        proof {
                            assert(out@.map_values(|x: TransactionRecord| x@)
                                =~= prevout.map_values(|x: TransactionRecord| x@).push(rec@));
                        }
                    }
                },
                None => {},
            }
            j = j + 1;
        }
        proof {
            assert(self.entries@.take(self.entries@.len() as int) =~= self.entries@);
        }
        out
    }

    /// Scanning from a cursor to the end, page after page, yields exactly
    /// the records stored from that position on.
    pub closed spec fn scan_pages(self, cursor: int, count: int) -> Seq<RecordView>
        decreases self.entry_count() - cursor,
        when 0 <= cursor <= self.entry_count() && count >= 1
    {
        let len = self.entries@.len() as int;
        let end = if cursor + count <= len {
            cursor + count
        } else {
            len
        };
        let page = parsed_records(self.entries@.subrange(cursor, end));
        if end == len {
            page
        } else {
            page + self.scan_pages(end, count)
        }
    }

    /// The scan, resumed with the returned cursors until it reports zero,
    /// returns every stored record: the pages concatenate to the full
    /// record list.
    pub proof fn lemma_scan_pages_cover(self, cursor: int, count: int)
        requires
            0 <= cursor <= self.entry_count(),
            count >= 1,
        ensures
            self.scan_pages(cursor, count) == self.window_records(
                cursor,
                self.entry_count() as int,
            ),
        decreases self.entry_count() as int - cursor,
    {
        let len = self.entries@.len() as int;
        let end = if cursor + count <= len {
            cursor + count
        } else {
            len
        };
        if end == len {
        } else {
            self.lemma_scan_pages_cover(end, count);
            lemma_parsed_records_append(
                self.entries@.subrange(cursor, end),
                self.entries@.subrange(end, len),
            );
            assert(self.entries@.subrange(cursor, end) + self.entries@.subrange(end, len)
                =~= self.entries@.subrange(cursor, len));
        }
    }
}

/// A consistent store answers every receiver's listing with exactly the
/// ids it owes that receiver: those of its stored records addressed to the
/// receiver, newest first.
pub proof fn lemma_consistent_receiver(s: StatusStore, rc: Seq<char>)
    requires
        s.consistent(),
    ensures
        s.user_txns(rc) == s.owed_ids(rc),
{
}

/// What `put_record` stores under a record's id, `get_record` reads back
/// as exactly that record: the store round-trips records through their
/// serialized form.
pub proof fn lemma_put_get_roundtrip(m: Map<Seq<char>, Seq<char>>, v: RecordView)
    ensures
        m.insert(v.id, spec_render_record(v)).contains_key(v.id),
        spec_parse_record(m.insert(v.id, spec_render_record(v))[v.id]) == Some(v),
{
    lemma_parse_render_record(v);
}

/// The id list held for a receiver: the one in the association list, or
/// empty where the receiver has no entry.
pub open spec fn user_list_of(s: Seq<(String, Vec<String>)>, receiver: Seq<char>) -> Seq<
    Seq<char>,
>
    decreases s.len(),
{
    if s.len() == 0 {
        Seq::empty()
    } else if s.last().0@ == receiver {
        s.last().1@.map_values(|v: String| v@)
    } else {
        user_list_of(s.drop_last(), receiver)
    }
}

/// String equality between two owned strings.
fn string_eq(a: &String, b: &String) -> (r: bool)
    ensures
        r == (a@ == b@),
{
    crate::text::str_eq(a.as_str(), b.as_str())
}

/// String equality between a slice and an owned string.
fn str_eq_string(a: &str, b: &String) -> (r: bool)
    ensures
        r == (a@ == b@),
{
    crate::text::str_eq(a, b.as_str())
}

/// A verified clone of a string's characters.
fn clone_string(s: &String) -> (r: String)
    ensures
        r@ == s@,
{
    s.clone()
}

} // verus!
