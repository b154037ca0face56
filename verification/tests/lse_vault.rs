//! The client of the vault.

use rustrade::lse::error::LseError;
use rustrade::lse::live::Variable;
use rustrade::lse::vault::{
    decode_error, parse_retry_after, read_status, read_submit_status, LseVaultClient, Reply, Span, SubmitReply,
};

const API_KEY_ENV: &str = "LSE_API_KEY";

fn client(key: &str) -> LseVaultClient {
    match LseVaultClient::new(key) {
        Ok(client) => client,
        Err(error) => panic!("{error:?}"),
    }
}

#[test]
fn debug_does_not_leak_the_api_key() {
    let client = client("super-secret-key");

    assert!(!client.describe().contains("super-secret-key"));
    assert_eq!(
        client.describe(),
        "LseVaultClient { base_url: \"https://api.londonstrategicedge.com/vault\", pace: 300ms, .. }"
    );
}

#[test]
fn a_key_carrying_a_control_character_is_a_typed_error_not_a_panic() {
    for key in ["key-with-\nnewline", "key-with-\rcarriage", "key\u{0}with-nul"] {
        assert!(
            matches!(LseVaultClient::new(key), Err(LseError::InvalidCredential { .. })),
            "{key:?} should be rejected"
        );
    }
    // A tab can stand in a header value.
    assert!(LseVaultClient::new("key\twith-tab").is_ok());
}

#[test]
fn a_key_that_is_not_ascii_is_refused() {
    let Err(LseError::InvalidCredential { message }) = LseVaultClient::new("clé") else {
        panic!("expected InvalidCredential")
    };
    assert_eq!(message, "invalid API key: failed to parse header value");
    assert!(LseVaultClient::new("key\u{7f}").is_err());
}

#[test]
fn from_env_reports_the_variable_name_when_unset() {
    let Err(error) = LseVaultClient::from_env(Variable::Missing) else { panic!("expected an error") };

    assert!(matches!(error, LseError::EnvVar { .. }));
    assert!(error.message().contains(API_KEY_ENV));
}

#[test]
fn from_env_never_reports_a_non_unicode_key() {
    let Err(error) = LseVaultClient::from_env(Variable::NotUnicode) else { panic!("expected an error") };
    let message = error.message();

    assert!(matches!(error, LseError::EnvVar { .. }));
    assert!(message.contains(API_KEY_ENV));
    assert!(
        !message.contains("super-secret"),
        "the key must never reach the error message: {message}"
    );
}

#[test]
fn from_env_builds_a_client_when_set() {
    assert!(LseVaultClient::from_env(Variable::Value("test-key".to_string())).is_ok());
}

#[test]
fn retry_after_reads_delta_seconds() {
    assert_eq!(parse_retry_after(Some("42")), Some(42));
    assert_eq!(parse_retry_after(Some(" 42 ")), Some(42));
}

#[test]
fn retry_after_declines_to_guess_at_an_http_date() {
    assert_eq!(parse_retry_after(Some("Wed, 21 Oct 2026 07:28:00 GMT")), None);
}

#[test]
fn retry_after_is_none_when_absent() {
    assert_eq!(parse_retry_after(None), None);
}

#[test]
fn settings_are_kept() {
    let client = client("key").with_base_url("http://localhost/vault").with_pace(Span { secs: 0, nanos: 0 });
    assert_eq!(client.base_url(), "http://localhost/vault");
    assert_eq!(client.pace(), Span { secs: 0, nanos: 0 });
    assert_eq!(client.api_key(), "key");
    assert_eq!(client.url("usage"), "http://localhost/vault/usage");
    assert!(client.describe().contains("pace: 0ns"));
}

#[test]
fn an_answer_is_read_by_its_status() {
    assert!(matches!(read_status(200, None), Reply::Decode));
    assert!(matches!(read_status(202, None), Reply::Decode));
    assert!(matches!(read_status(404, None), Reply::Diagnose));
    assert!(matches!(read_status(302, None), Reply::Diagnose));
    assert!(matches!(
        read_status(429, Some("7")),
        Reply::Fail(LseError::RateLimited { retry_after: Some(7) })
    ));
    assert!(matches!(
        read_status(429, None),
        Reply::Fail(LseError::RateLimited { retry_after: None })
    ));
    let LseError::Deserialize { message } = decode_error("usage", "EOF while parsing") else {
        panic!("expected Deserialize")
    };
    assert_eq!(message, "usage: EOF while parsing");
}

#[test]
fn submit_accepts_the_202_the_provider_actually_returns() {
    assert_eq!(read_submit_status(202), SubmitReply::Decode);
    assert_eq!(read_submit_status(200), SubmitReply::Decode);
    assert_eq!(read_submit_status(400), SubmitReply::Diagnose);
    assert_eq!(read_submit_status(429), SubmitReply::ReportQuota);
}
