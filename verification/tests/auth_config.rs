use base64::Engine;
use craft::authentication::{basic_authentication, new_password_acceptable, BasicAuthError};
use craft::configuration::{default_timeout_milliseconds, RunningEnv};
use craft::domain::subscriber::SubscriberStatus;
use craft::utils::AppError;

#[test]
fn basic_credentials_round_trip() {
    let encoded = base64::engine::general_purpose::STANDARD.encode("ursula:guin rocks");
    let header = format!("Basic {encoded}");
    let credentials = basic_authentication(&header).unwrap();
    assert_eq!(credentials.username, "ursula");
    assert_eq!(credentials.password, "guin rocks");
}

#[test]
fn password_may_contain_colons() {
    let encoded = base64::engine::general_purpose::STANDARD.encode("u:p:q");
    let header = format!("Basic {encoded}");
    let credentials = basic_authentication(&header).unwrap();
    assert_eq!(credentials.username, "u");
    assert_eq!(credentials.password, "p:q");
}

#[test]
fn missing_scheme_is_rejected() {
    assert_eq!(
        basic_authentication("Bearer abcdef").unwrap_err(),
        BasicAuthError::MissingScheme
    );
    assert_eq!(basic_authentication("").unwrap_err(), BasicAuthError::MissingScheme);
}

#[test]
fn broken_base64_is_rejected() {
    assert_eq!(
        basic_authentication("Basic !!!not-base64!!!").unwrap_err(),
        BasicAuthError::InvalidBase64
    );
}

#[test]
fn non_utf8_credentials_are_rejected() {
    let encoded = base64::engine::general_purpose::STANDARD.encode([0xffu8, 0xfe, 0xfd]);
    let header = format!("Basic {encoded}");
    assert_eq!(basic_authentication(&header).unwrap_err(), BasicAuthError::InvalidUtf8);
}

#[test]
fn credentials_without_a_colon_are_rejected() {
    let encoded = base64::engine::general_purpose::STANDARD.encode("no-password-here");
    let header = format!("Basic {encoded}");
    assert_eq!(basic_authentication(&header).unwrap_err(), BasicAuthError::MissingPassword);
}

#[test]
fn environment_names_parse_ignoring_case() {
    assert_eq!(RunningEnv::from_str("local").unwrap(), RunningEnv::Local);
    assert_eq!(RunningEnv::from_str("LOCAL").unwrap(), RunningEnv::Local);
    assert_eq!(RunningEnv::from_str("Production").unwrap(), RunningEnv::Production);
    assert!(RunningEnv::from_str("staging").is_err());
}

#[test]
fn environment_names_round_trip() {
    assert_eq!(RunningEnv::Local.as_str(), "local");
    assert_eq!(RunningEnv::Production.as_str(), "production");
}

#[test]
fn default_email_timeout_is_ten_seconds() {
    assert_eq!(default_timeout_milliseconds(), 10_000);
}

#[test]
fn subscriber_statuses_have_their_stored_names() {
    assert_eq!(SubscriberStatus::Confirmed.as_str(), "confirmed");
    assert_eq!(SubscriberStatus::PendingConfirmation.as_str(), "pending_confirmation");
}

#[test]
fn app_errors_map_to_their_status_codes() {
    let bad_request = AppError::E400("bad key".to_string());
    let server_error = AppError::E500("boom".to_string());
    assert_eq!(bad_request.status_code(), 400);
    assert_eq!(server_error.status_code(), 500);
    assert_eq!(bad_request.message(), "bad key");
    assert_eq!(server_error.message(), "boom");
}

#[test]
fn password_changes_need_matching_long_passwords() {
    let strong = "correct horse battery".to_string();
    assert!(new_password_acceptable(&strong, &strong));
    assert!(!new_password_acceptable(&strong, &"correct horse".to_string()));
    assert!(!new_password_acceptable(&"short".to_string(), &"short".to_string()));
    let twelve = "a".repeat(12);
    assert!(new_password_acceptable(&twelve, &twelve));
    let eleven = "a".repeat(11);
    assert!(!new_password_acceptable(&eleven, &eleven));
}
