use craft::domain::subscriber::{SubscriberDirectory, SubscriberStatus};
use craft::idempotency::persistence::IdempotencyStore;
use craft::idempotency_expire_worker::reaper_pass_interval_seconds;
use craft::issue_delivery_worker::{work_loop_backoff_seconds, DeliveryStore, ExecutionOutput};
use craft::newsletters::{enqueue_delivery_tasks, publish_newsletter_with_id, save_newsletter_issue};
use craft::utils::AppError;

const LIMIT: u16 = 3;
const WAIT: u16 = 5;

fn directory(confirmed: &[&str], pending: &[&str]) -> SubscriberDirectory {
    let mut dir = SubscriberDirectory::new();
    for email in confirmed {
        assert!(dir.insert_subscriber(email.to_string(), SubscriberStatus::Confirmed));
    }
    for email in pending {
        assert!(dir.insert_subscriber(email.to_string(), SubscriberStatus::PendingConfirmation));
    }
    dir
}

fn publish(
    idem: &mut IdempotencyStore,
    store: &mut DeliveryStore,
    dir: &SubscriberDirectory,
    key: &str,
    issue_id: u128,
    now: i64,
) -> Result<craft::response::HttpResponse, AppError> {
    publish_newsletter_with_id(
        idem,
        store,
        dir,
        &"Launch".to_string(),
        &"plain body".to_string(),
        &"<p>html body</p>".to_string(),
        key.to_string(),
        7,
        issue_id,
        now,
    )
}

#[test]
fn publish_fans_out_one_task_per_confirmed_recipient() {
    let mut idem = IdempotencyStore::new();
    let mut store = DeliveryStore::new();
    let dir = directory(&["a@x.com", "b@x.com", "c@x.com"], &["later@x.com"]);
    let response = publish(&mut idem, &mut store, &dir, "issue-1", 42, 100).unwrap();
    assert_eq!(response.status_code, 200);
    assert!(response.body.is_empty());
    assert_eq!(store.task_count(), 3);
    assert!(store.contains_issue(42));
    assert!(store.contains_task(42, &"a@x.com".to_string()));
    assert!(store.contains_task(42, &"b@x.com".to_string()));
    assert!(store.contains_task(42, &"c@x.com".to_string()));
    assert!(!store.contains_task(42, &"later@x.com".to_string()));
}

#[test]
fn stored_issue_contents_are_returned_verbatim() {
    let mut idem = IdempotencyStore::new();
    let mut store = DeliveryStore::new();
    let dir = directory(&["a@x.com"], &[]);
    publish(&mut idem, &mut store, &dir, "issue-1", 42, 100).unwrap();
    let (title, text, html) = store.get_issue(42).unwrap();
    assert_eq!(title, "Launch");
    assert_eq!(text, "plain body");
    assert_eq!(html, "<p>html body</p>");
    assert!(store.get_issue(43).is_none());
}

#[test]
fn republish_with_same_key_replays_and_sends_nothing_new() {
    let mut idem = IdempotencyStore::new();
    let mut store = DeliveryStore::new();
    let dir = directory(&["a@x.com", "b@x.com"], &[]);
    let first = publish(&mut idem, &mut store, &dir, "issue-1", 42, 100).unwrap();

    // first drain delivers to both and empties the queue
    assert!(matches!(
        store.try_execute_task(101, true, LIMIT, WAIT),
        ExecutionOutput::TaskCompleted
    ));
    assert!(matches!(
        store.try_execute_task(101, true, LIMIT, WAIT),
        ExecutionOutput::TaskCompleted
    ));
    assert!(matches!(
        store.try_execute_task(101, true, LIMIT, WAIT),
        ExecutionOutput::NoAvaliableTask
    ));
    assert_eq!(store.task_count(), 0);

    // replaying the original request returns the saved 200 and creates
    // no new tasks, even under a different issue id and a later clock
    let second = publish(&mut idem, &mut store, &dir, "issue-1", 43, 900).unwrap();
    assert_eq!(second.status_code, first.status_code);
    assert_eq!(second.body, first.body);
    assert_eq!(second.headers.len(), first.headers.len());
    assert_eq!(store.task_count(), 0);
    assert!(!store.contains_issue(43));
    assert_eq!(idem.record_count(), 1);
}

#[test]
fn malformed_stored_address_is_skipped_without_retry() {
    let mut idem = IdempotencyStore::new();
    let mut store = DeliveryStore::new();
    let dir = directory(&["noisy_drop.gmail.com"], &[]);
    publish(&mut idem, &mut store, &dir, "issue-1", 42, 100).unwrap();
    assert_eq!(store.task_count(), 1);
    // even though every send would fail, the malformed address is
    // deleted at once rather than retried
    assert!(matches!(
        store.try_execute_task(101, false, LIMIT, WAIT),
        ExecutionOutput::TaskCompleted
    ));
    assert_eq!(store.task_count(), 0);
}

#[test]
fn failing_sends_abandon_the_task_at_the_limit() {
    let mut idem = IdempotencyStore::new();
    let mut store = DeliveryStore::new();
    let dir = directory(&["d@x.com"], &[]);
    publish(&mut idem, &mut store, &dir, "issue-1", 42, 100).unwrap();

    // first and second failures reschedule
    assert!(matches!(
        store.try_execute_task(200, false, LIMIT, WAIT),
        ExecutionOutput::RetryLater
    ));
    assert_eq!(store.task_count(), 1);
    assert!(matches!(
        store.try_execute_task(300, false, LIMIT, WAIT),
        ExecutionOutput::RetryLater
    ));
    assert_eq!(store.task_count(), 1);

    // the third failure exhausts the budget: abandoned, not rescheduled
    assert!(matches!(
        store.try_execute_task(400, false, LIMIT, WAIT),
        ExecutionOutput::TaskCompleted
    ));
    assert_eq!(store.task_count(), 0);

    // no fourth attempt is possible
    assert!(matches!(
        store.try_execute_task(500, false, LIMIT, WAIT),
        ExecutionOutput::NoAvaliableTask
    ));
}

#[test]
fn rescheduled_task_waits_out_its_backoff() {
    let mut idem = IdempotencyStore::new();
    let mut store = DeliveryStore::new();
    let dir = directory(&["d@x.com"], &[]);
    publish(&mut idem, &mut store, &dir, "issue-1", 42, 100).unwrap();

    assert!(matches!(
        store.try_execute_task(101, false, LIMIT, WAIT),
        ExecutionOutput::RetryLater
    ));
    // pushed out from the stored eligibility time, 100, to 100 + WAIT:
    // not eligible until that passes
    assert!(matches!(
        store.try_execute_task(100 + WAIT as i64, false, LIMIT, WAIT),
        ExecutionOutput::NoAvaliableTask
    ));
    assert!(matches!(
        store.try_execute_task(101 + WAIT as i64, true, LIMIT, WAIT),
        ExecutionOutput::TaskCompleted
    ));
}

#[test]
fn concurrent_claims_never_hand_out_the_same_task() {
    let mut idem = IdempotencyStore::new();
    let mut store = DeliveryStore::new();
    let dir = directory(&["a@x.com", "b@x.com"], &[]);
    publish(&mut idem, &mut store, &dir, "issue-1", 42, 100).unwrap();

    let first = store.dequeue_task(101).expect("one eligible task");
    let second = store.dequeue_task(101).expect("a second eligible task");
    assert!(
        first.newsletter_issue_id != second.newsletter_issue_id
            || first.subscriber_email != second.subscriber_email
    );
    // both rows are locked now: a third worker finds nothing
    assert!(store.dequeue_task(101).is_none());

    store.delete_task(&first);
    store.delete_task(&second);
    assert_eq!(store.task_count(), 0);
}

#[test]
fn claimed_task_can_be_rescheduled_by_hand() {
    let mut idem = IdempotencyStore::new();
    let mut store = DeliveryStore::new();
    let dir = directory(&["a@x.com"], &[]);
    publish(&mut idem, &mut store, &dir, "issue-1", 42, 100).unwrap();

    let task = store.dequeue_task(101).expect("one eligible task");
    assert_eq!(task.n_retries, 0);
    store.schedule_next_retry(&task, WAIT);
    assert_eq!(store.task_count(), 1);
    let again = store.dequeue_task(101 + 1 + WAIT as i64).expect("eligible after the wait");
    assert_eq!(again.n_retries, 1);
    store.delete_task(&again);
}

#[test]
fn invalid_idempotency_key_is_a_client_error() {
    let mut idem = IdempotencyStore::new();
    let mut store = DeliveryStore::new();
    let dir = directory(&["a@x.com"], &[]);
    match publish(&mut idem, &mut store, &dir, "", 42, 100) {
        Err(e) => assert_eq!(e.status_code(), 400),
        Ok(_) => panic!("an empty idempotency key must be rejected"),
    }
    assert_eq!(store.task_count(), 0);
    assert_eq!(idem.record_count(), 0);
}

#[test]
fn in_flight_duplicate_publish_is_a_server_error() {
    let mut idem = IdempotencyStore::new();
    let mut store = DeliveryStore::new();
    let dir = directory(&["a@x.com"], &[]);
    let key = craft::idempotency::key::IdempotencyKey::try_from("issue-1".to_string()).unwrap();
    assert!(idem.try_process(7, &key, 50).is_ok());
    match publish(&mut idem, &mut store, &dir, "issue-1", 42, 100) {
        Err(e) => assert_eq!(e.status_code(), 500),
        Ok(_) => panic!("an in-flight duplicate must surface as an error"),
    }
    assert_eq!(store.task_count(), 0);
}

#[test]
fn issue_id_collision_changes_nothing() {
    let mut idem = IdempotencyStore::new();
    let mut store = DeliveryStore::new();
    let dir = directory(&["a@x.com"], &[]);
    publish(&mut idem, &mut store, &dir, "issue-1", 42, 100).unwrap();
    match publish(&mut idem, &mut store, &dir, "issue-2", 42, 200) {
        Err(e) => assert_eq!(e.status_code(), 500),
        Ok(_) => panic!("a colliding issue id must abort the publish"),
    }
    assert_eq!(idem.record_count(), 1);
    assert_eq!(store.task_count(), 1);
}

#[test]
fn generated_issue_ids_reach_the_store() {
    let mut store = DeliveryStore::new();
    let id = save_newsletter_issue(
        &mut store,
        &"Launch".to_string(),
        &"text".to_string(),
        &"html".to_string(),
        100,
    )
    .unwrap();
    assert!(store.contains_issue(id));
    let dir = directory(&["a@x.com"], &[]);
    let count = enqueue_delivery_tasks(&mut store, id, &dir, 100);
    assert_eq!(count, 1);
    assert!(store.contains_task(id, &"a@x.com".to_string()));
}

#[test]
fn loop_backoff_follows_the_policy() {
    assert_eq!(work_loop_backoff_seconds(&None), 2);
    assert_eq!(work_loop_backoff_seconds(&Some(ExecutionOutput::NoAvaliableTask)), 10);
    assert_eq!(work_loop_backoff_seconds(&Some(ExecutionOutput::TaskCompleted)), 0);
    assert_eq!(work_loop_backoff_seconds(&Some(ExecutionOutput::RetryLater)), 0);
    assert_eq!(reaper_pass_interval_seconds(), 10);
}

#[test]
fn saving_an_issue_in_an_empty_store_succeeds() {
    let mut store = DeliveryStore::new();
    let id = save_newsletter_issue(
        &mut store,
        &"Launch".to_string(),
        &"text".to_string(),
        &"html".to_string(),
        100,
    )
    .unwrap();
    assert!(store.contains_issue(id));
}
