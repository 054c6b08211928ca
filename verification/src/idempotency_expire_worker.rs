//! The expiry reaper: bounds the idempotency store's growth by deleting
//! records older than a configured time-to-live.  One call stands for one
//! reaper pass; the surrounding loop only sleeps and repeats.

use vstd::prelude::*;

use crate::idempotency::persistence::{
    surviving_records, IdempotencyStore, RecordView,
};

verus! {

/// Relies on time::OffsetDateTime::now_utc and unix_timestamp: the current
/// system-clock time as seconds since the Unix epoch.  Nothing is promised
/// of the value, since it depends on the environment.
#[verifier::external_body]
fn now_unix_timestamp() -> i64 {
    time::OffsetDateTime::now_utc().unix_timestamp()
}

/// One reaper pass: reads the clock and deletes every record older than
/// `ttl_seconds`, reporting how many were deleted.  Whatever time the
/// clock returned, the store afterwards holds exactly the records at or
/// after some cutoff, in their original order.
pub fn try_clean_expired_idempotency(store: &mut IdempotencyStore, ttl_seconds: i64) -> (r: u64)
    requires
        old(store).wf(),
        ttl_seconds >= 0,
    ensures
        final(store).wf(),
        exists|cutoff: i64|
            final(store)@ == surviving_records(old(store)@, cutoff) && r == old(store)@.len()
                - final(store)@.len(),
{
    let now = now_unix_timestamp();
    let cutoff: i64 = if now >= i64::MIN + ttl_seconds {
        now - ttl_seconds
    } else {
        i64::MIN
    };
    store.reap_expired(cutoff)
}

/// A reaper pass deletes exactly the records older than the cutoff:
/// every surviving record was created at or after the cutoff and stood in
/// the store before the pass, and every record at or after the cutoff
/// survives it.
pub proof fn lemma_reaper_scope(s: Seq<RecordView>, cutoff: i64)
    ensures
        forall|j: int|
            0 <= j < surviving_records(s, cutoff).len() ==> #[trigger] surviving_records(
                s,
                cutoff,
            )[j].created_at >= cutoff,
        forall|j: int|
            0 <= j < surviving_records(s, cutoff).len() ==> exists|i: int|
                0 <= i < s.len() && #[trigger] surviving_records(s, cutoff)[j] == s[i],
        forall|i: int|
            0 <= i < s.len() && s[i].created_at >= cutoff ==> exists|j: int|
                0 <= j < surviving_records(s, cutoff).len() && surviving_records(s, cutoff)[j]
                    == #[trigger] s[i],
    decreases s.len(),
{
    crate::idempotency::persistence::lemma_surviving_members(s, cutoff);
    if s.len() > 0 {
        lemma_reaper_scope(s.drop_last(), cutoff);
        let sub = surviving_records(s.drop_last(), cutoff);
        let out = surviving_records(s, cutoff);
        assert forall|i: int|
            0 <= i < s.len() && s[i].created_at >= cutoff implies exists|j: int|
            0 <= j < out.len() && out[j] == s[i] by {
            if i < s.len() - 1 {
                assert(s.drop_last()[i] == s[i]);
                let j = choose|j: int| 0 <= j < sub.len() && sub[j] == s.drop_last()[i];
                assert(out[j] == s[i]);
            } else {
                assert(out[out.len() - 1] == s[i]);
            }
        }
    }
}

/// The reaper's pass interval: a pass runs every ten seconds, whether or
/// not the previous one succeeded — a cleanup failure never stops the
/// loop.
pub fn reaper_pass_interval_seconds() -> (r: u64)
    ensures
        r == 10,
{
    10
}

} // verus!
