//! Credentials, and what the provider offers.

use rustrade::exchange::ExchangeId;
use rustrade::lse::dataset::LseDataset;
use rustrade::lse::live::{expected_categories, LseCredentials, Variable};
use rustrade::lse::subscription::SocketError;

#[test]
fn credentials_do_not_print_the_key() {
    let printed = LseCredentials::new("super-secret-key").describe();

    assert!(!printed.contains("super-secret-key"), "{printed}");
    assert!(printed.contains("REDACTED"), "{printed}");
    assert_eq!(printed, "LseCredentials { api_key: \"[REDACTED]\" }");
}

#[test]
fn credentials_from_the_environment_never_name_the_value() {
    assert!(LseCredentials::from_env(Variable::Value("key".to_string())).is_ok());
    let Err(SocketError::Subscribe(missing)) = LseCredentials::from_env(Variable::Missing) else {
        panic!("a missing variable is an error")
    };
    assert_eq!(missing, "LSE_API_KEY is not set");
    let Err(SocketError::Subscribe(broken)) = LseCredentials::from_env(Variable::NotUnicode) else {
        panic!("a value that is no text is an error")
    };
    assert_eq!(broken, "LSE_API_KEY is set but is not valid UTF-8");
}

#[test]
fn the_key_is_sent_as_a_json_string() {
    let credentials = LseCredentials::new("a\"b\\c\n\u{1}é");
    let message = credentials.auth_message();
    assert_eq!(message, "{\"action\":\"auth\",\"api_key\":\"a\\\"b\\\\c\\n\\u0001é\"}");
    let value: serde_json::Value = serde_json::from_str(&message).unwrap();
    assert_eq!(value["action"], "auth");
    assert_eq!(value["api_key"], "a\"b\\c\n\u{1}é");
    assert_eq!(credentials.duplicate().auth_message(), message);
}

#[test]
fn unrelated_datasets_do_not_share_category_expectations() {
    assert_eq!(expected_categories(ExchangeId::LseFx), vec!["Forex"]);
    assert_eq!(expected_categories(ExchangeId::LseCrypto), vec!["Crypto"]);
    assert!(!expected_categories(ExchangeId::LseCfd).contains(&"Forex"));
}

#[test]
fn every_dataset_identifier_expects_only_categories_the_provider_publishes() {
    for exchange in [
        ExchangeId::LseFx,
        ExchangeId::LseCrypto,
        ExchangeId::LseEquities,
        ExchangeId::LseFutures,
        ExchangeId::LseCfd,
    ] {
        for category in expected_categories(exchange) {
            assert!(
                LseDataset::list().into_iter().any(|dataset| dataset.ws_category() == Some(category)),
                "{exchange:?} expects an unpublished category {category:?}",
            );
        }
    }
}
