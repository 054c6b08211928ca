//! Publishing a newsletter issue: the idempotency gateway wrapped around
//! the transactional outbox.
//!
//! One publish validates the idempotency key, consults the gateway, and —
//! for fresh requests — stores the issue and fans out one delivery task
//! per currently-confirmed recipient, all as one atomic transition; the
//! saved response is completed in the same transaction.  Replays return
//! the saved response verbatim and change nothing.

use vstd::prelude::*;

use crate::domain::subscriber::{confirmed_emails, SubscriberDirectory, SubscriberRowView};
use crate::idempotency::key::{valid_key, IdempotencyKey};
use crate::idempotency::persistence::{
    complete_record, has_record, the_record, unique_records, IdempotencyStore, NextAction,
    RecordView,
};
use crate::issue_delivery_worker::{
    has_issue, DeliveryStore, DeliveryTask, IssueView, NewsletterIssue, StoreView, TaskRowView,
    TaskView,
};
use crate::response::{ok_response_view, HttpResponse, ResponseView};
use crate::utils::AppError;

verus! {

/// The delivery tasks one fan-out creates: one unclaimed task per
/// recipient, with no attempts yet and eligible at once.
pub open spec fn fanout_tasks(issue_id: u128, emails: Seq<Seq<char>>, now: i64) -> Seq<TaskView> {
    Seq::new(
        emails.len(),
        |i: int|
            TaskView {
                row: TaskRowView {
                    newsletter_issue_id: issue_id,
                    subscriber_email: emails[i],
                    n_retries: 0u16,
                    execute_after: now,
                },
                claimed: false,
            },
    )
}

/// The two stores one publish acts on.
#[verifier::ext_equal]
pub ghost struct PublishState {
    pub idem: Seq<RecordView>,
    pub store: StoreView,
}

/// What one publish reports: the response (produced fresh or replayed),
/// or the failure that left everything unchanged.
pub ghost enum PublishOutcome {
    Accepted(ResponseView),
    InvalidKey,
    ConflictInFlight,
    IssueIdCollision,
}

/// One whole publish request as an atomic transition.  A malformed key is
/// rejected outright.  A key with a completed record replays its saved
/// response and changes nothing.  A key with an in-flight record is a
/// conflict.  A fresh key stores the issue under `issue_id`, fans out one
/// task per confirmed recipient, and completes the new record with the
/// success response — all together or not at all (a colliding `issue_id`
/// aborts the whole transaction).
pub open spec fn publish_transition(
    idem: Seq<RecordView>,
    store: StoreView,
    directory: Seq<SubscriberRowView>,
    title: Seq<char>,
    text: Seq<char>,
    html: Seq<char>,
    key: Seq<char>,
    user_id: u128,
    issue_id: u128,
    now: i64,
) -> (PublishState, PublishOutcome) {
    if !valid_key(key) {
        (PublishState { idem, store }, PublishOutcome::InvalidKey)
    } else if has_record(idem, user_id, key) {
        match the_record(idem, user_id, key).response {
            Some(saved) => (PublishState { idem, store }, PublishOutcome::Accepted(saved)),
            None => (PublishState { idem, store }, PublishOutcome::ConflictInFlight),
        }
    } else if has_issue(store.issues, issue_id) {
        (PublishState { idem, store }, PublishOutcome::IssueIdCollision)
    } else {
        let resp = ok_response_view();
        (
            PublishState {
                idem: idem.push(
                    RecordView {
                        user_id,
                        idempotency_key: key,
                        created_at: now,
                        response: Some(resp),
                    },
                ),
                store: StoreView {
                    issues: store.issues.push(
                        IssueView {
                            newsletter_issue_id: issue_id,
                            title,
                            text_content: text,
                            html_content: html,
                            published_at: now,
                        },
                    ),
                    tasks: store.tasks + fanout_tasks(
                        issue_id,
                        confirmed_emails(directory),
                        now,
                    ),
                },
            },
            PublishOutcome::Accepted(resp),
        )
    }
}

/// Relies on uuid::Uuid::new_v4 and as_u128: a freshly generated random
/// issue identifier.  Nothing is promised of the value, since it is
/// random.
#[verifier::external_body]
fn fresh_issue_id() -> u128 {
    uuid::Uuid::new_v4().as_u128()
}

/// Stores a new issue under a freshly generated identifier.  The one
/// failure is the generated identifier colliding with a stored issue —
/// impossible while the store is empty — and the store is then
/// unchanged.
pub fn save_newsletter_issue(
    store: &mut DeliveryStore,
    title: &String,
    text_content: &String,
    html_content: &String,
    now: i64,
) -> (r: Result<u128, AppError>)
    requires
        old(store).wf(),
    ensures
        final(store).wf(),
        match r {
            Ok(id) => !has_issue(old(store)@.issues, id) && final(store)@.issues == old(
                store,
            )@.issues.push(
                IssueView {
                    newsletter_issue_id: id,
                    title: title@,
                    text_content: text_content@,
                    html_content: html_content@,
                    published_at: now,
                },
            ) && final(store)@.tasks == old(store)@.tasks,
            Err(e) => e is E500 && final(store)@ == old(store)@,
        },
        r is Err ==> old(store)@.issues.len() > 0,
{
    let newsletter_issue_id = fresh_issue_id();
    if store.contains_issue(newsletter_issue_id) {
        proof {
            let i = choose|i: int|
                0 <= i < store@.issues.len() && #[trigger] store@.issues[i].newsletter_issue_id
                    == newsletter_issue_id;
            assert(store@.issues.len() > 0);
        }
        return Err(
            AppError::E500(String::from_str("Failed to store newsletter issue detailes")),
        );
    }
    store.insert_issue(
        NewsletterIssue {
            newsletter_issue_id,
            title: title.clone(),
            text_content: text_content.clone(),
            html_content: html_content.clone(),
            published_at: now,
        },
    );
    proof {
        assert(store@.issues =~= old(store)@.issues.push(
            IssueView {
                newsletter_issue_id,
                title: title@,
                text_content: text_content@,
                html_content: html_content@,
                published_at: now,
            },
        ));
    }
    Ok(newsletter_issue_id)
}

/// Fans the stored issue out into the delivery queue: one task per
/// currently-confirmed recipient, inside the caller's transaction, and
/// reports how many tasks were created.
pub fn enqueue_delivery_tasks(
    store: &mut DeliveryStore,
    newsletter_issue_id: u128,
    directory: &SubscriberDirectory,
    now: i64,
) -> (task_count: usize)
    requires
        old(store).wf(),
        directory.wf(),
        has_issue(old(store)@.issues, newsletter_issue_id),
        forall|k: int|
            0 <= k < old(store)@.tasks.len() ==> (#[trigger] old(
                store,
            )@.tasks[k]).row.newsletter_issue_id != newsletter_issue_id,
    ensures
        final(store).wf(),
        final(store)@.issues == old(store)@.issues,
        final(store)@.tasks == old(store)@.tasks + fanout_tasks(
            newsletter_issue_id,
            confirmed_emails(directory@),
            now,
        ),
        task_count == confirmed_emails(directory@).len(),
{
    let ghost pre = store@;
    proof {
        crate::domain::subscriber::lemma_confirmed_emails_distinct(directory@);
    }
    let ghost emails = confirmed_emails(directory@);
    let recipients = directory.get_confirmed_subscribers();
    let mut i: usize = 0;
    while i < recipients.len()
        invariant
            store.wf(),
            directory.wf(),
            pre == old(store)@,
            recipients@.map_values(|s: String| s@) == emails,
            emails == confirmed_emails(directory@),
            forall|a: int, b: int|
                0 <= a < emails.len() && 0 <= b < emails.len() && a != b ==> emails[a]
                    != emails[b],
            forall|k: int|
                0 <= k < pre.tasks.len() ==> (#[trigger] pre.tasks[k]).row.newsletter_issue_id
                    != newsletter_issue_id,
            has_issue(pre.issues, newsletter_issue_id),
            0 <= i <= recipients.len(),
            store@.issues == pre.issues,
            store@.tasks =~= pre.tasks + fanout_tasks(
                newsletter_issue_id,
                emails.take(i as int),
                now,
            ),
        decreases recipients.len() - i,
    {
        proof {
            assert(recipients@[i as int]@ == emails[i as int]);
            assert forall|k: int| 0 <= k < store@.tasks.len() implies !crate::
            issue_delivery_worker::task_matches(
                store@.tasks[k],
                newsletter_issue_id,
                emails[i as int],
            ) by {
                if k < pre.tasks.len() {
                    assert(store@.tasks[k] == pre.tasks[k]);
                } else {
                    let j = k - pre.tasks.len();
                    assert(store@.tasks[k] == fanout_tasks(
                        newsletter_issue_id,
                        emails.take(i as int),
                        now,
                    )[j]);
                    assert(store@.tasks[k].row.subscriber_email == emails[j]);
                    assert(emails[j] != emails[i as int]);
                }
            }
        }
        let task = DeliveryTask {
            newsletter_issue_id,
            subscriber_email: recipients[i].clone(),
            n_retries: 0,
            execute_after: now,
        };
        let ghost mid = store@;
        store.push_task(task);
        proof {
            assert(store@.tasks =~= mid.tasks.push(
                TaskView {
                    row: TaskRowView {
                        newsletter_issue_id,
                        subscriber_email: emails[i as int],
                        n_retries: 0u16,
                        execute_after: now,
                    },
                    claimed: false,
                },
            ));
            assert(store@.tasks =~= pre.tasks + fanout_tasks(
                newsletter_issue_id,
                emails.take(i as int + 1),
                now,
            ));
        }
        i = i + 1;
    }
    proof {
        assert(emails.take(i as int) =~= emails);
        assert(store@.tasks =~= pre.tasks + fanout_tasks(newsletter_issue_id, emails, now));
    }
    recipients.len()
}


/// One publish request against the given stores, with the issue
/// identifier supplied by the caller; the whole request follows
/// [`publish_transition`].  Success returns the produced or replayed
/// response; every failure leaves both stores unchanged.
pub fn publish_newsletter_with_id(
    idem: &mut IdempotencyStore,
    store: &mut DeliveryStore,
    directory: &SubscriberDirectory,
    title: &String,
    text: &String,
    html: &String,
    idempotency_key: String,
    user_id: u128,
    issue_id: u128,
    now: i64,
) -> (r: Result<HttpResponse, AppError>)
    requires
        old(idem).wf(),
        old(store).wf(),
        directory.wf(),
    ensures
        final(idem).wf(),
        final(store).wf(),
        ({
            let (post, outcome) = publish_transition(
                old(idem)@,
                old(store)@,
                directory@,
                title@,
                text@,
                html@,
                idempotency_key@,
                user_id,
                issue_id,
                now,
            );
            &&& final(idem)@ == post.idem
            &&& final(store)@ == post.store
            &&& match outcome {
                PublishOutcome::Accepted(v) => r matches Ok(resp) && resp@ == v,
                PublishOutcome::InvalidKey => r matches Err(e) && e is E400,
                PublishOutcome::ConflictInFlight => r matches Err(e) && e is E500,
                PublishOutcome::IssueIdCollision => r matches Err(e) && e is E500,
            }
        }),
{
    let ghost pre_idem = idem@;
    let ghost pre_store = store@;
    let key = match IdempotencyKey::try_from(idempotency_key) {
        Ok(k) => k,
        Err(e) => {
            return Err(AppError::E400(e));
        },
    };
    // The gateway insert, the issue insert and the fan-out share one
    // transaction: an identifier collision aborts all of it, so test for
    // it before any store changes.
    if !idem.contains_record(user_id, &key) && store.contains_issue(issue_id) {
        return Err(
            AppError::E500(String::from_str("Failed to store newsletter issue detailes")),
        );
    }
    match idem.try_process(user_id, &key, now) {
        Ok(NextAction::StartProcessing) => {},
        Ok(NextAction::ReturnSavedResponse(saved)) => {
            return Ok(saved);
        },
        Err(e) => {
            return Err(AppError::E500(e));
        },
    }
    store.insert_issue(
        NewsletterIssue {
            newsletter_issue_id: issue_id,
            title: title.clone(),
            text_content: text.clone(),
            html_content: html.clone(),
            published_at: now,
        },
    );
    proof {
        assert(store@.issues =~= pre_store.issues.push(
            IssueView {
                newsletter_issue_id: issue_id,
                title: title@,
                text_content: text@,
                html_content: html@,
                published_at: now,
            },
        ));
        assert forall|k: int| 0 <= k < store@.tasks.len() implies (#[trigger] store@
            .tasks[k]).row.newsletter_issue_id != issue_id by {
            assert(crate::issue_delivery_worker::has_issue(
                pre_store.issues,
                store@.tasks[k].row.newsletter_issue_id,
            ));
        }
        assert(store@.issues[pre_store.issues.len() as int].newsletter_issue_id == issue_id);
        assert(crate::issue_delivery_worker::has_issue(store@.issues, issue_id));
    }
    enqueue_delivery_tasks(store, issue_id, directory, now);
    let response = HttpResponse::ok_response();
    let ghost mid_idem = idem@;
    proof {
        // the record this request inserted is the unique match
        assert(mid_idem == pre_idem.push(
            RecordView { user_id, idempotency_key: key@, created_at: now, response: None },
        ));
        assert(crate::idempotency::persistence::record_matches(
            mid_idem[mid_idem.len() - 1],
            user_id,
            key@,
        ));
        assert(has_record(mid_idem, user_id, key@));
        let j = choose|j: int|
            0 <= j < mid_idem.len() && crate::idempotency::persistence::record_matches(
                mid_idem[j],
                user_id,
                key@,
            );
        if j < pre_idem.len() {
            assert(crate::idempotency::persistence::record_matches(pre_idem[j], user_id, key@));
            assert(false);
        }
        assert(the_record(mid_idem, user_id, key@) == mid_idem[mid_idem.len() - 1]);
    }
    let response = idem.save_response(&key, user_id, response);
    proof {
        let completed = RecordView {
            user_id,
            idempotency_key: key@,
            created_at: now,
            response: Some(ok_response_view()),
        };
        assert(idem@ =~= complete_record(mid_idem, user_id, key@, ok_response_view()));
        assert forall|k: int| 0 <= k < pre_idem.len() implies idem@[k] == pre_idem[k] by {
            assert(!crate::idempotency::persistence::record_matches(pre_idem[k], user_id, key@));
        }
        assert(idem@[pre_idem.len() as int] =~= completed);
        assert(idem@ =~= pre_idem.push(completed));
    }
    Ok(response)
}

/// The publish entry point: as
/// [`publish_newsletter_with_id`], with the issue identifier freshly
/// generated inside.  Whatever identifier came back, the request follows
/// [`publish_transition`] for that identifier.
pub fn publish_newsletter(
    idem: &mut IdempotencyStore,
    store: &mut DeliveryStore,
    directory: &SubscriberDirectory,
    title: &String,
    text: &String,
    html: &String,
    idempotency_key: String,
    user_id: u128,
    now: i64,
) -> (r: Result<HttpResponse, AppError>)
    requires
        old(idem).wf(),
        old(store).wf(),
        directory.wf(),
    ensures
        final(idem).wf(),
        final(store).wf(),
        exists|issue_id: u128|
            {
                let (post, outcome) = #[trigger] publish_transition(
                    old(idem)@,
                    old(store)@,
                    directory@,
                    title@,
                    text@,
                    html@,
                    idempotency_key@,
                    user_id,
                    issue_id,
                    now,
                );
                &&& final(idem)@ == post.idem
                &&& final(store)@ == post.store
                &&& match outcome {
                    PublishOutcome::Accepted(v) => r matches Ok(resp) && resp@ == v,
                    PublishOutcome::InvalidKey => r matches Err(e) && e is E400,
                    PublishOutcome::ConflictInFlight => r matches Err(e) && e is E500,
                    PublishOutcome::IssueIdCollision => r matches Err(e) && e is E500,
                }
            },
{
    let issue_id = fresh_issue_id();
    let r = publish_newsletter_with_id(
        idem,
        store,
        directory,
        title,
        text,
        html,
        idempotency_key,
        user_id,
        issue_id,
        now,
    );
    r
}

/// Issuing the same publish request twice (same caller, same key) yields
/// identical responses, and the second call changes nothing: no new
/// record, no new issue, no new delivery task — so the replay causes zero
/// new sends, whatever payload, directory or clock the second request
/// carries.
pub proof fn lemma_publish_replay_identical(
    idem: Seq<RecordView>,
    store: StoreView,
    dir1: Seq<SubscriberRowView>,
    dir2: Seq<SubscriberRowView>,
    title1: Seq<char>,
    text1: Seq<char>,
    html1: Seq<char>,
    title2: Seq<char>,
    text2: Seq<char>,
    html2: Seq<char>,
    key: Seq<char>,
    user_id: u128,
    issue_id1: u128,
    issue_id2: u128,
    now1: i64,
    now2: i64,
)
    requires
        unique_records(idem),
        publish_transition(idem, store, dir1, title1, text1, html1, key, user_id, issue_id1,
            now1).1 is Accepted,
    ensures
        ({
            let (post1, out1) = publish_transition(idem, store, dir1, title1, text1, html1,
                key, user_id, issue_id1, now1);
            let (post2, out2) = publish_transition(post1.idem, post1.store, dir2, title2,
                text2, html2, key, user_id, issue_id2, now2);
            &&& out2 == out1
            &&& post2 == post1
        }),
{
    let (post1, out1) = publish_transition(idem, store, dir1, title1, text1, html1, key,
        user_id, issue_id1, now1);
    let (post2, out2) = publish_transition(post1.idem, post1.store, dir2, title2, text2,
        html2, key, user_id, issue_id2, now2);
    if has_record(idem, user_id, key) {
        // the first call already replayed a completed record
        assert(post1 =~= PublishState { idem, store });
    } else {
        // the first call completed a fresh record; the second finds it
        let n = idem.len();
        let completed = RecordView {
            user_id,
            idempotency_key: key,
            created_at: now1,
            response: Some(ok_response_view()),
        };
        assert(post1.idem == idem.push(completed));
        assert(crate::idempotency::persistence::record_matches(post1.idem[n as int], user_id,
            key));
        assert(has_record(post1.idem, user_id, key));
        let j = choose|j: int|
            0 <= j < post1.idem.len() && crate::idempotency::persistence::record_matches(
                post1.idem[j],
                user_id,
                key,
            );
        if j < n {
            assert(crate::idempotency::persistence::record_matches(idem[j], user_id, key));
            assert(false);
        }
        assert(the_record(post1.idem, user_id, key) == completed);
        assert(post2 =~= post1);
    }
}

/// One publish of a fresh request creates exactly one delivery task per
/// currently-confirmed recipient — together with the issue itself, or not
/// at all — and every created task starts with no attempts, eligible at
/// publish time.
pub proof fn lemma_publish_fanout_count(
    idem: Seq<RecordView>,
    store: StoreView,
    directory: Seq<SubscriberRowView>,
    title: Seq<char>,
    text: Seq<char>,
    html: Seq<char>,
    key: Seq<char>,
    user_id: u128,
    issue_id: u128,
    now: i64,
)
    requires
        valid_key(key),
        !has_record(idem, user_id, key),
        !has_issue(store.issues, issue_id),
    ensures
        ({
            let (post, outcome) = publish_transition(idem, store, directory, title, text,
                html, key, user_id, issue_id, now);
            &&& outcome is Accepted
            &&& post.store.tasks.len() == store.tasks.len() + confirmed_emails(directory).len()
            &&& forall|j: int|
                0 <= j < confirmed_emails(directory).len()
                    ==> #[trigger] post.store.tasks[store.tasks.len() + j].row == TaskRowView {
                    newsletter_issue_id: issue_id,
                    subscriber_email: confirmed_emails(directory)[j],
                    n_retries: 0u16,
                    execute_after: now,
                }
        }),
{
}

} // verus!
