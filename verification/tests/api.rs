//! The mail API.

use std::sync::Arc;

use smtpvoid::mailstore::{ConnKind, ConnectionInfo, MailStore, StoredEmail};
use smtpvoid::web::api::{full, presented_token, raw_headers, Filter};

fn conn() -> ConnectionInfo {
    ConnectionInfo {
        kind: ConnKind::StartTls,
        tls_version: Some("TLSv1.3".into()),
        tls_cipher: None,
        peer_addr: "127.0.0.1:1234".into(),
        helo: "test".into(),
        esmtp: true,
        auth_mechanism: "PLAIN".into(),
    }
}

fn stored(subject: &str, to: &str) -> Arc<StoredEmail> {
    let mut store = MailStore::new(3600, 10);
    store.add(
        1,
        "sv_test".into(),
        "sender@example.test".into(),
        vec![to.to_string()],
        format!("Subject: {subject}\r\nFrom: Sender <sender@example.test>\r\nTo: {to}\r\n\r\nhello")
            .into_bytes(),
        conn(),
    )
}

fn filter(to: Option<&str>, subject: Option<&str>) -> Filter {
    Filter {
        to: to.map(str::to_string),
        subject: subject.map(str::to_string),
        ..Filter::default()
    }
}

#[test]
fn filters_ignore_case_and_match_substrings() {
    let email = stored("Reset your password", "Alice@Example.test");
    assert!(filter(Some("alice@example.test"), None).matches(&email));
    assert!(filter(None, Some("reset")).matches(&email));
    assert!(filter(Some("ALICE"), Some("PASSWORD")).matches(&email));
    assert!(!filter(Some("bob@example.test"), None).matches(&email));
    assert!(!filter(None, Some("invoice")).matches(&email));
}

#[test]
fn an_empty_filter_matches_everything() {
    assert!(Filter::default().matches(&stored("anything", "someone@example.test")));
}

#[test]
fn an_html_only_message_reports_no_text_body() {
    let mut store = MailStore::new(3600, 10);
    let email = store.add(
        1,
        "sv_test".into(),
        "sender@example.test".into(),
        vec!["alice@example.test".into()],
        b"Subject: Rich
Content-Type: text/html

<p>hello</p>".to_vec(),
        conn(),
    );
    let message = full(&email);
    assert_eq!(message.html.as_deref(), Some("<p>hello</p>"));
    assert_eq!(message.text, None, "no text part means no text body");
}

#[test]
fn a_message_carries_its_bodies_and_headers() {
    let email = stored("Hello", "alice@example.test");
    let message = full(&email);
    assert_eq!(message.summary.subject, "Hello");
    assert_eq!(message.text.as_deref(), Some("hello"));
    assert_eq!(message.html, None);
    assert_eq!(message.summary.security, "starttls");
    assert!(message
        .headers
        .iter()
        .any(|h| h.name == "Subject" && h.value == "Hello"));
}

#[test]
fn folded_headers_are_joined_into_one_value() {
    let raw = b"Subject: one\r\n two\r\nX-Test: a\r\nX-Test: b\r\n\r\nbody";
    let headers = raw_headers(raw);
    assert_eq!(headers[0].name, "Subject");
    assert_eq!(headers[0].value, "one two");
    // Repeated header names keep both values, in order.
    assert_eq!(headers[1].value, "a");
    assert_eq!(headers[2].value, "b");
}

#[test]
fn bearer_tokens_are_read_whatever_the_scheme_case() {
    assert_eq!(
        presented_token(Some("BeArEr  tok123 "), None).as_deref(),
        Some("tok123")
    );
    assert_eq!(
        presented_token(None, Some("tok456")).as_deref(),
        Some("tok456")
    );
    assert_eq!(presented_token(None, None), None);
}
