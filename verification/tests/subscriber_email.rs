use craft::domain::subscriber_email::SubscriberEmail;

#[test]
fn without_at_is_invalid() {
    let invalid_email = "noisy_drop.gmail.com";
    assert!(SubscriberEmail::from_str(invalid_email).is_err());
}

#[test]
fn without_subject_is_invalid() {
    let invalid_email = "@gmail.com";
    assert!(SubscriberEmail::from_str(invalid_email).is_err());
}

#[test]
fn empty_is_invalid() {
    let invalid_email = "";
    assert!(SubscriberEmail::from_str(invalid_email).is_err());
}

#[test]
fn a_plain_address_is_valid() {
    let email = SubscriberEmail::from_str("ursula@example.com").unwrap();
    assert_eq!(email.as_ref(), "ursula@example.com");
}

#[test]
fn try_from_owned_string_agrees_with_from_str() {
    assert!(SubscriberEmail::try_from("ursula@example.com".to_string()).is_ok());
    assert!(SubscriberEmail::try_from("ursula.example.com".to_string()).is_err());
}
