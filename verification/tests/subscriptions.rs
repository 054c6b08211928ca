use craft::domain::subscriber::{Subscriber, SubscriberDirectory};
use craft::domain::subscriber_email::SubscriberEmail;
use craft::domain::subscriber_name::SubscriberName;
use craft::idempotency::persistence::IdempotencyStore;
use craft::issue_delivery_worker::DeliveryStore;
use craft::newsletters::publish_newsletter_with_id;
use craft::subscriptions::{confirm, subscript, Params, SubscriptionTokenStore};

fn subscriber(name: &str, email: &str) -> Subscriber {
    Subscriber {
        name: SubscriberName::try_from(name.to_string()).unwrap(),
        email: SubscriberEmail::from_str(email).unwrap(),
    }
}

#[test]
fn subscript_works() {
    let mut dir = SubscriberDirectory::new();
    let mut tokens = SubscriptionTokenStore::new();
    let user = subscriber("Ursula Le Guin", "ursula@example.com");
    let token = subscript(&mut dir, &mut tokens, &user).unwrap();
    assert_eq!(token.len(), 25);
    assert!(dir.contains_email(&"ursula@example.com".to_string()));
    assert!(tokens.contains_token(&token));
    // pending subscriptions are not yet fanned out
    assert!(dir.get_confirmed_subscribers().is_empty());
}

#[test]
fn clicking_the_link_confirms_the_subscription() {
    let mut dir = SubscriberDirectory::new();
    let mut tokens = SubscriptionTokenStore::new();
    let user = subscriber("Ursula Le Guin", "ursula@example.com");
    let token = subscript(&mut dir, &mut tokens, &user).unwrap();

    let status = confirm(&mut dir, &tokens, &Params { token });
    assert_eq!(status, 200);
    assert_eq!(dir.get_confirmed_subscribers(), vec!["ursula@example.com".to_string()]);
}

#[test]
fn unknown_tokens_are_unauthorized() {
    let mut dir = SubscriberDirectory::new();
    let mut tokens = SubscriptionTokenStore::new();
    let user = subscriber("Ursula Le Guin", "ursula@example.com");
    subscript(&mut dir, &mut tokens, &user).unwrap();

    let status = confirm(&mut dir, &tokens, &Params { token: "nope".to_string() });
    assert_eq!(status, 401);
    assert!(dir.get_confirmed_subscribers().is_empty());
}

#[test]
fn duplicate_addresses_are_rejected() {
    let mut dir = SubscriberDirectory::new();
    let mut tokens = SubscriptionTokenStore::new();
    let user = subscriber("Ursula Le Guin", "ursula@example.com");
    subscript(&mut dir, &mut tokens, &user).unwrap();
    let again = subscriber("Ursula K. Le Guin", "ursula@example.com");
    let error = subscript(&mut dir, &mut tokens, &again).unwrap_err();
    assert_eq!(error.status_code(), 500);
}

#[test]
fn later_confirmed_subscribers_are_not_retroactively_included() {
    let mut dir = SubscriberDirectory::new();
    let mut tokens = SubscriptionTokenStore::new();
    let early = subscriber("Early Bird", "early@example.com");
    let late = subscriber("Late Comer", "late@example.com");
    let early_token = subscript(&mut dir, &mut tokens, &early).unwrap();
    let late_token = subscript(&mut dir, &mut tokens, &late).unwrap();
    assert_eq!(confirm(&mut dir, &tokens, &Params { token: early_token }), 200);

    let mut idem = IdempotencyStore::new();
    let mut store = DeliveryStore::new();
    let title = "Launch".to_string();
    publish_newsletter_with_id(
        &mut idem, &mut store, &dir, &title, &title, &title,
        "issue-1".to_string(), 7, 42, 100,
    )
    .unwrap();
    assert_eq!(store.task_count(), 1);
    assert!(store.contains_task(42, &"early@example.com".to_string()));

    // confirming afterwards adds nothing to the already-published fan-out
    assert_eq!(confirm(&mut dir, &tokens, &Params { token: late_token }), 200);
    assert_eq!(store.task_count(), 1);
    assert!(!store.contains_task(42, &"late@example.com".to_string()));

    // the next issue sees both confirmed subscribers
    publish_newsletter_with_id(
        &mut idem, &mut store, &dir, &title, &title, &title,
        "issue-2".to_string(), 7, 43, 200,
    )
    .unwrap();
    assert_eq!(store.task_count(), 3);
}

#[test]
fn generated_tokens_are_25_alphanumeric_characters() {
    let mut dir = SubscriberDirectory::new();
    let mut tokens = SubscriptionTokenStore::new();
    let user = subscriber("Ursula Le Guin", "ursula@example.com");
    let token = subscript(&mut dir, &mut tokens, &user).unwrap();
    assert_eq!(token.chars().count(), 25);
    assert!(token.chars().all(|c| c.is_ascii_alphanumeric()));
}
