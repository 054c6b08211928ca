//! The durable idempotency store and the gateway decisions over it.
//!
//! Each record is keyed by (caller identity, idempotency key).  A record
//! starts "in flight" with no saved response and is completed exactly once
//! when the unit of work it guards commits.  Every public operation here
//! stands for one committed transaction against the store.

use vstd::prelude::*;

use crate::idempotency::key::IdempotencyKey;
use crate::response::{HttpResponse, ResponseView};

verus! {

/// Mathematical image of one idempotency record.
#[verifier::ext_equal]
pub ghost struct RecordView {
    pub user_id: u128,
    pub idempotency_key: Seq<char>,
    pub created_at: i64,
    pub response: Option<ResponseView>,
}

/// One row of the idempotency store.
pub struct IdempotencyRecord {
    pub user_id: u128,
    pub idempotency_key: String,
    pub created_at: i64,
    pub response: Option<HttpResponse>,
}

impl View for IdempotencyRecord {
    type V = RecordView;

    open spec fn view(&self) -> RecordView {
        RecordView {
            user_id: self.user_id,
            idempotency_key: self.idempotency_key@,
            created_at: self.created_at,
            response: match self.response {
                Some(r) => Some(r@),
                None => None,
            },
        }
    }
}

/// Does record `r` belong to caller `user_id` under `key`?
pub open spec fn record_matches(r: RecordView, user_id: u128, key: Seq<char>) -> bool {
    r.user_id == user_id && r.idempotency_key == key
}

/// Is there a record for (`user_id`, `key`)?
pub open spec fn has_record(s: Seq<RecordView>, user_id: u128, key: Seq<char>) -> bool {
    exists|i: int| 0 <= i < s.len() && record_matches(s[i], user_id, key)
}

/// The record for (`user_id`, `key`); meaningful when [`has_record`] holds
/// and the store is well formed, which makes the record unique.
pub open spec fn the_record(s: Seq<RecordView>, user_id: u128, key: Seq<char>) -> RecordView {
    s[choose|i: int| 0 <= i < s.len() && record_matches(s[i], user_id, key)]
}

/// The saved response for (`user_id`, `key`), if a completed record exists.
pub open spec fn saved_response_of(s: Seq<RecordView>, user_id: u128, key: Seq<char>) -> Option<
    ResponseView,
> {
    if has_record(s, user_id, key) {
        the_record(s, user_id, key).response
    } else {
        None
    }
}

/// At most one record ever exists per (caller, key).
pub open spec fn unique_records(s: Seq<RecordView>) -> bool {
    forall|i: int, j: int|
        0 <= i < s.len() && 0 <= j < s.len() && i != j ==> !(s[i].user_id == s[j].user_id
            && s[i].idempotency_key == s[j].idempotency_key)
}

/// The store with the record for (`user_id`, `key`) completed by `resp`;
/// every other record is untouched.
pub open spec fn complete_record(
    s: Seq<RecordView>,
    user_id: u128,
    key: Seq<char>,
    resp: ResponseView,
) -> Seq<RecordView> {
    Seq::new(
        s.len(),
        |i: int|
            if record_matches(s[i], user_id, key) {
                RecordView { response: Some(resp), ..s[i] }
            } else {
                s[i]
            },
    )
}

/// The records of `s` that were created at or after `cutoff`, in order.
pub open spec fn surviving_records(s: Seq<RecordView>, cutoff: i64) -> Seq<RecordView>
    decreases s.len(),
{
    if s.len() == 0 {
        Seq::empty()
    } else if s.last().created_at >= cutoff {
        surviving_records(s.drop_last(), cutoff).push(s.last())
    } else {
        surviving_records(s.drop_last(), cutoff)
    }
}

/// Every survivor is a record of the original store.
pub proof fn lemma_surviving_members(s: Seq<RecordView>, cutoff: i64)
    ensures
        forall|j: int|
            0 <= j < surviving_records(s, cutoff).len() ==> exists|i: int|
                0 <= i < s.len() && #[trigger] surviving_records(s, cutoff)[j] == s[i],
    decreases s.len(),
{
    if s.len() > 0 {
        lemma_surviving_members(s.drop_last(), cutoff);
        let sub = surviving_records(s.drop_last(), cutoff);
        assert forall|j: int| 0 <= j < surviving_records(s, cutoff).len() implies exists|i: int|
            0 <= i < s.len() && #[trigger] surviving_records(s, cutoff)[j] == s[i] by {
            if j < sub.len() {
                let i = choose|i: int|
                    0 <= i < s.drop_last().len() && sub[j] == s.drop_last()[i];
                assert(surviving_records(s, cutoff)[j] == s[i]);
            } else {
                assert(surviving_records(s, cutoff)[j] == s[s.len() - 1]);
            }
        }
    }
}

/// Reaping preserves the store's uniqueness invariant.
pub proof fn lemma_surviving_unique(s: Seq<RecordView>, cutoff: i64)
    requires
        unique_records(s),
    ensures
        unique_records(surviving_records(s, cutoff)),
    decreases s.len(),
{
    if s.len() > 0 {
        assert(unique_records(s.drop_last()));
        lemma_surviving_unique(s.drop_last(), cutoff);
        lemma_surviving_members(s.drop_last(), cutoff);
        let sub = surviving_records(s.drop_last(), cutoff);
        let out = surviving_records(s, cutoff);
        if s.last().created_at >= cutoff {
            assert forall|a: int, b: int|
                0 <= a < out.len() && 0 <= b < out.len() && a != b implies !(out[a].user_id
                == out[b].user_id && out[a].idempotency_key == out[b].idempotency_key) by {
                if a < sub.len() && b < sub.len() {
                    assert(!(sub[a].user_id == sub[b].user_id && sub[a].idempotency_key
                        == sub[b].idempotency_key));
                } else if a < sub.len() {
                    let i = choose|i: int|
                        0 <= i < s.drop_last().len() && sub[a] == s.drop_last()[i];
                    assert(out[b] == s[s.len() - 1]);
                    assert(!(s[i].user_id == s[s.len() - 1].user_id && s[i].idempotency_key
                        == s[s.len() - 1].idempotency_key));
                } else {
                    let i = choose|i: int|
                        0 <= i < s.drop_last().len() && sub[b] == s.drop_last()[i];
                    assert(out[a] == s[s.len() - 1]);
                    assert(!(s[i].user_id == s[s.len() - 1].user_id && s[i].idempotency_key
                        == s[s.len() - 1].idempotency_key));
                }
            }
        }
    }
}


/// Completion is permanent and leaves every other record alone: after a
/// record is completed it holds exactly the saved response — so the
/// save step, which demands an in-flight record, can never run twice for
/// one (caller, key) — and no other record changes.
pub proof fn lemma_completion_is_permanent(
    s: Seq<RecordView>,
    user_id: u128,
    key: Seq<char>,
    resp: ResponseView,
)
    requires
        unique_records(s),
        has_record(s, user_id, key),
    ensures
        has_record(complete_record(s, user_id, key, resp), user_id, key),
        the_record(complete_record(s, user_id, key, resp), user_id, key).response == Some(resp),
        forall|k: int|
            0 <= k < s.len() && !record_matches(#[trigger] s[k], user_id, key)
                ==> complete_record(s, user_id, key, resp)[k] == s[k],
{
    let out = complete_record(s, user_id, key, resp);
    let i = choose|i: int| 0 <= i < s.len() && record_matches(s[i], user_id, key);
    assert(record_matches(out[i], user_id, key));
    assert(has_record(out, user_id, key));
    let j = choose|j: int| 0 <= j < out.len() && record_matches(out[j], user_id, key);
    if j != i {
        assert(record_matches(s[j], user_id, key));
        assert(!(s[i].user_id == s[j].user_id && s[i].idempotency_key == s[j].idempotency_key));
        assert(false);
    }
    assert(the_record(out, user_id, key) == out[i]);
}

/// What the gateway tells the caller to do next: run the guarded work
/// inside the transaction just opened, or return the saved response of an
/// earlier run verbatim.
pub enum NextAction {
    StartProcessing,
    ReturnSavedResponse(HttpResponse),
}

/// The idempotency store: a durable table of [`IdempotencyRecord`]s,
/// unique per (caller, key).
pub struct IdempotencyStore {
    records: Vec<IdempotencyRecord>,
}

impl View for IdempotencyStore {
    type V = Seq<RecordView>;

    closed spec fn view(&self) -> Seq<RecordView> {
        Seq::new(self.records@.len(), |i: int| self.records@[i]@)
    }
}

impl IdempotencyStore {
    /// The store's invariant: no two records share (caller, key).
    pub open spec fn wf(&self) -> bool {
        unique_records(self@)
    }

    /// An empty store.
    pub fn new() -> (r: IdempotencyStore)
        ensures
            r@ == Seq::<RecordView>::empty(),
            r.wf(),
    {
        let r = IdempotencyStore { records: Vec::new() };
        proof {
            assert(r@ =~= Seq::<RecordView>::empty());
        }
        r
    }

    /// How many records the store holds.
    pub fn record_count(&self) -> (r: usize)
        ensures
            r == self@.len(),
    {
        self.records.len()
    }

    /// Index of the record for (`user_id`, `key`), if any.
    fn find(&self, user_id: u128, key: &String) -> (r: Option<usize>)
        ensures
            match r {
                Some(i) => 0 <= i < self@.len() && record_matches(self@[i as int], user_id, key@),
                None => !has_record(self@, user_id, key@),
            },
    {
        let mut i: usize = 0;
        while i < self.records.len()
            invariant
                i <= self.records.len(),
                self@.len() == self.records@.len(),
                forall|j: int| 0 <= j < i ==> !record_matches(self@[j], user_id, key@),
            decreases self.records.len() - i,
        {
            if self.records[i].user_id == user_id && self.records[i].idempotency_key == *key {
                return Some(i);
            }
            i = i + 1;
        }
        None
    }

    /// Is there a record for (`user_id`, `key`)?
    pub fn contains_record(&self, user_id: u128, idempotency_key: &IdempotencyKey) -> (r: bool)
        ensures
            r == has_record(self@, user_id, idempotency_key@),
    {
        match self.find(user_id, idempotency_key.as_string()) {
            Some(_) => true,
            None => false,
        }
    }

    /// In well-formed stores the matching record is unique, so the record
    /// found at any matching index is [`the_record`].
    proof fn lemma_found_is_the_record(&self, user_id: u128, key: Seq<char>, i: int)
        requires
            self.wf(),
            0 <= i < self@.len(),
            record_matches(self@[i], user_id, key),
        ensures
            has_record(self@, user_id, key),
            the_record(self@, user_id, key) == self@[i],
    {
        assert(has_record(self@, user_id, key));
        let j = choose|j: int| 0 <= j < self@.len() && record_matches(self@[j], user_id, key);
        assert(j == i);
    }

    /// The gateway's first step for a request: start fresh work, replay a
    /// saved response, or report that a duplicate request is still in
    /// flight.
    ///
    /// A fresh (caller, key) inserts an in-flight record created at `now`
    /// and tells the caller to start processing.  An existing record with
    /// a saved response replays it verbatim.  An existing record with no
    /// saved response means a duplicate request is in flight (or its owner
    /// crashed before completing); that surfaces as an error rather than a
    /// silent retry.
    pub fn try_process(
        &mut self,
        user_id: u128,
        idempotency_key: &IdempotencyKey,
        now: i64,
    ) -> (r: Result<NextAction, String>)
        requires
            old(self).wf(),
        ensures
            final(self).wf(),
            !has_record(old(self)@, user_id, idempotency_key@) ==> {
                &&& r matches Ok(a)
                &&& a is StartProcessing
                &&& final(self)@ == old(self)@.push(
                    RecordView {
                        user_id,
                        idempotency_key: idempotency_key@,
                        created_at: now,
                        response: None,
                    },
                )
            },
            has_record(old(self)@, user_id, idempotency_key@) ==> {
                &&& final(self)@ == old(self)@
                &&& match the_record(old(self)@, user_id, idempotency_key@).response {
                    Some(resp) => r matches Ok(a) && (a matches NextAction::ReturnSavedResponse(hr)
                        && hr@ == resp),
                    None => r is Err,
                }
            },
    {
        let found = self.find(user_id, idempotency_key.as_string());
        match found {
            None => {
                let record = IdempotencyRecord {
                    user_id,
                    idempotency_key: idempotency_key.as_string().clone(),
                    created_at: now,
                    response: None,
                };
                proof {
                    let ghost pushed = self@.push(record@);
                    assert forall|i: int, j: int|
                        0 <= i < pushed.len() && 0 <= j < pushed.len() && i != j implies !(
                    pushed[i].user_id == pushed[j].user_id && pushed[i].idempotency_key
                        == pushed[j].idempotency_key) by {
                        if i < self@.len() && j < self@.len() {
                            assert(!(self@[i].user_id == self@[j].user_id
                                && self@[i].idempotency_key == self@[j].idempotency_key));
                        } else if i < self@.len() {
                            assert(!record_matches(self@[i], user_id, idempotency_key@));
                        } else {
                            assert(!record_matches(self@[j], user_id, idempotency_key@));
                        }
                    }
                }
                let ghost pre = self@;
                self.records.push(record);
                proof {
                    assert(self@ =~= pre.push(
                        RecordView {
                            user_id,
                            idempotency_key: idempotency_key@,
                            created_at: now,
                            response: None,
                        },
                    ));
                }
                Ok(NextAction::StartProcessing)
            },
            Some(i) => {
                proof {
                    self.lemma_found_is_the_record(user_id, idempotency_key@, i as int);
                }
                match &self.records[i].response {
                    Some(resp) => Ok(NextAction::ReturnSavedResponse(resp.duplicate())),
                    None => Err(
                        String::from_str("We expected a saved response, we didn't find it"),
                    ),
                }
            },
        }
    }

    /// The saved response for (`user_id`, `key`), if that record exists
    /// and has completed.
    pub fn get_saved_response(&self, idempotency_key: &IdempotencyKey, user_id: u128) -> (r: Option<
        HttpResponse,
    >)
        requires
            self.wf(),
        ensures
            match r {
                Some(hr) => saved_response_of(self@, user_id, idempotency_key@) matches Some(v)
                    && hr@ == v,
                None => saved_response_of(self@, user_id, idempotency_key@) is None,
            },
    {
        match self.find(user_id, idempotency_key.as_string()) {
            Some(i) => {
                proof {
                    self.lemma_found_is_the_record(user_id, idempotency_key@, i as int);
                }
                match &self.records[i].response {
                    Some(resp) => Some(resp.duplicate()),
                    None => None,
                }
            },
            None => None,
        }
    }

    /// Completes the in-flight record for (`user_id`, `key`) with the
    /// response the guarded work produced, and hands the same response
    /// back, so in-process callers and replay callers see the same shape.
    /// A record is completed exactly once.
    pub fn save_response(
        &mut self,
        idempotency_key: &IdempotencyKey,
        user_id: u128,
        response: HttpResponse,
    ) -> (r: HttpResponse)
        requires
            old(self).wf(),
            has_record(old(self)@, user_id, idempotency_key@),
            the_record(old(self)@, user_id, idempotency_key@).response is None,
        ensures
            final(self).wf(),
            final(self)@ == complete_record(old(self)@, user_id, idempotency_key@, response@),
            r@ == response@,
    {
        let found = self.find(user_id, idempotency_key.as_string());
        match found {
            Some(i) => {
                proof {
                    self.lemma_found_is_the_record(user_id, idempotency_key@, i as int);
                }
                let ghost pre = self@;
                let r = response.duplicate();
                self.records[i].response = Some(response);
                proof {
                    assert forall|k: int| 0 <= k < pre.len() && k != i implies self@[k] == pre[k]
                        by {}
                    assert forall|k: int|
                        0 <= k < pre.len() && k != i implies !record_matches(
                        pre[k],
                        user_id,
                        idempotency_key@,
                    ) by {}
                    assert(self@ =~= complete_record(pre, user_id, idempotency_key@, r@));
                    assert forall|a: int, b: int|
                        0 <= a < self@.len() && 0 <= b < self@.len() && a != b implies !(
                    self@[a].user_id == self@[b].user_id && self@[a].idempotency_key
                        == self@[b].idempotency_key) by {
                        assert(self@[a].user_id == pre[a].user_id && self@[a].idempotency_key
                            == pre[a].idempotency_key);
                        assert(self@[b].user_id == pre[b].user_id && self@[b].idempotency_key
                            == pre[b].idempotency_key);
                    }
                }
                r
            },
            None => vstd::pervasive::unreached(),
        }
    }

    /// Deletes every record created before `cutoff` and reports how many
    /// were deleted; records created at or after `cutoff` survive, in
    /// order.
    pub fn reap_expired(&mut self, cutoff: i64) -> (deleted: u64)
        requires
            old(self).wf(),
        ensures
            final(self).wf(),
            final(self)@ == surviving_records(old(self)@, cutoff),
            deleted == old(self)@.len() - final(self)@.len(),
    {
        let ghost orig = self@;
        let orig_len = self.records.len();
        let mut i: usize = 0;
        let ghost mut done: int = 0;
        while i < self.records.len()
            invariant
                0 <= i <= self.records.len(),
                self@.len() == self.records@.len(),
                i <= done <= orig.len(),
                self@ =~= surviving_records(orig.take(done), cutoff) + orig.skip(done),
                i == surviving_records(orig.take(done), cutoff).len(),
            decreases self.records.len() - i,
        {
            let ghost jj = done;
            proof {
                assert(orig.skip(jj).len() == orig.len() - jj);
                assert(jj < orig.len());
                assert(self@[i as int] == orig.skip(jj)[0]);
                assert(self@[i as int] == orig[jj]);
                assert(orig.take(jj + 1).drop_last() =~= orig.take(jj));
                assert(orig.take(jj + 1).drop_last() == orig.take(jj));
                assert(orig.take(jj + 1).last() == orig[jj]);
            }
            let ghost pre = self@;
            if self.records[i].created_at >= cutoff {
                proof {
                    assert(surviving_records(orig.take(jj + 1), cutoff) == surviving_records(
                        orig.take(jj),
                        cutoff,
                    ).push(orig[jj]));
                }
                i = i + 1;
            } else {
                self.records.remove(i);
                proof {
                    assert(surviving_records(orig.take(jj + 1), cutoff) == surviving_records(
                        orig.take(jj),
                        cutoff,
                    ));
                    assert(self@ =~= pre.remove(i as int));
                }
            }
            proof {
                done = done + 1;
                assert(self@ =~= surviving_records(orig.take(done), cutoff) + orig.skip(done));
            }
        }
        proof {
            assert(orig.take(done) =~= orig);
            assert(orig.take(done) == orig);
            assert(self@ =~= surviving_records(orig, cutoff));
            lemma_surviving_unique(orig, cutoff);
        }
        (orig_len - self.records.len()) as u64
    }
}

} // verus!
