use craft::idempotency::key::IdempotencyKey;
use craft::idempotency::persistence::{IdempotencyStore, NextAction};
use craft::idempotency_expire_worker::try_clean_expired_idempotency;
use craft::response::HttpResponse;

fn key(s: &str) -> IdempotencyKey {
    IdempotencyKey::try_from(s.to_string()).unwrap()
}

#[test]
fn empty_key_is_rejected() {
    assert!(IdempotencyKey::try_from("".to_string()).is_err());
}

#[test]
fn fifty_character_key_is_accepted() {
    let k = IdempotencyKey::try_from("k".repeat(50)).unwrap();
    assert_eq!(k.as_ref().len(), 50);
}

#[test]
fn fifty_one_character_key_is_rejected() {
    assert!(IdempotencyKey::try_from("k".repeat(51)).is_err());
}

#[test]
fn fresh_key_starts_processing() {
    let mut store = IdempotencyStore::new();
    let k = key("request-1");
    match store.try_process(7, &k, 100) {
        Ok(NextAction::StartProcessing) => {}
        _ => panic!("a fresh key must start processing"),
    }
    assert!(store.contains_record(7, &k));
    assert_eq!(store.record_count(), 1);
}

#[test]
fn in_flight_duplicate_is_a_conflict() {
    let mut store = IdempotencyStore::new();
    let k = key("request-1");
    assert!(store.try_process(7, &k, 100).is_ok());
    assert!(store.try_process(7, &k, 101).is_err());
    assert_eq!(store.record_count(), 1);
}

#[test]
fn completed_record_replays_the_saved_response() {
    let mut store = IdempotencyStore::new();
    let k = key("request-1");
    assert!(store.try_process(7, &k, 100).is_ok());
    assert!(store.get_saved_response(&k, 7).is_none());

    let response = HttpResponse { status_code: 200, headers: Vec::new(), body: vec![1, 2, 3] };
    let returned = store.save_response(&k, 7, response);
    assert_eq!(returned.status_code, 200);
    assert_eq!(returned.body, vec![1, 2, 3]);

    let saved = store.get_saved_response(&k, 7).expect("the response must be saved");
    assert_eq!(saved.status_code, 200);
    assert_eq!(saved.body, vec![1, 2, 3]);
    match store.try_process(7, &k, 200) {
        Ok(NextAction::ReturnSavedResponse(replayed)) => {
            assert_eq!(replayed.status_code, 200);
            assert_eq!(replayed.body, vec![1, 2, 3]);
        }
        _ => panic!("a completed record must replay its response"),
    }
}

#[test]
fn records_are_scoped_per_caller() {
    let mut store = IdempotencyStore::new();
    let k = key("request-1");
    assert!(store.try_process(7, &k, 100).is_ok());
    match store.try_process(8, &k, 100) {
        Ok(NextAction::StartProcessing) => {}
        _ => panic!("another caller's identical key is independent"),
    }
    assert_eq!(store.record_count(), 2);
}

#[test]
fn reaper_deletes_old_records_and_keeps_young_ones() {
    let mut store = IdempotencyStore::new();
    let ka = key("request-a");
    let kb = key("request-b");
    let kc = key("request-c");
    assert!(store.try_process(1, &ka, 100).is_ok());
    assert!(store.try_process(1, &kb, 200).is_ok());
    assert!(store.try_process(1, &kc, 300).is_ok());

    let deleted = store.reap_expired(250);
    assert_eq!(deleted, 2);
    assert_eq!(store.record_count(), 1);
    assert!(!store.contains_record(1, &ka));
    assert!(!store.contains_record(1, &kb));
    assert!(store.contains_record(1, &kc));
}

#[test]
fn a_reaper_pass_on_young_records_deletes_nothing() {
    let mut store = IdempotencyStore::new();
    let k = key("request-a");
    assert!(store.try_process(1, &k, 100).is_ok());
    let deleted = store.reap_expired(100);
    assert_eq!(deleted, 0);
    assert!(store.contains_record(1, &k));
}

#[test]
fn clock_driven_reap_deletes_by_age() {
    let mut store = IdempotencyStore::new();
    let old_key = key("ancient");
    let young_key = key("fresh");
    assert!(store.try_process(1, &old_key, i64::MIN).is_ok());
    assert!(store.try_process(1, &young_key, i64::MAX).is_ok());
    let deleted = try_clean_expired_idempotency(&mut store, 0);
    assert_eq!(deleted, 1);
    assert!(!store.contains_record(1, &old_key));
    assert!(store.contains_record(1, &young_key));
}
