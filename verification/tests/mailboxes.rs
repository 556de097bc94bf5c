//! The mailboxes, and what the API shows of them.

use std::sync::Arc;

use smtpvoid::mailstore::{ConnKind, ConnectionInfo, MailStore, StoredEmail};
use smtpvoid::mime::parse_summary;
use smtpvoid::web::api::{
    get_one_at, latest_at, list_at, new_api_token, require_token, token_holder, Filter,
    MISSING_TOKEN,
};
use smtpvoid::db::User;

fn conn() -> ConnectionInfo {
    ConnectionInfo {
        kind: ConnKind::ImplicitTls,
        tls_version: None,
        tls_cipher: None,
        peer_addr: "p".into(),
        helo: "h".into(),
        esmtp: false,
        auth_mechanism: "LOGIN".into(),
    }
}

fn email(id: &str, received_at: i64, expires_at: i64, size: usize) -> Arc<StoredEmail> {
    Arc::new(StoredEmail {
        id: id.into(),
        cred_username: "sv_x".into(),
        mail_from: "from@x.test".into(),
        rcpt_to: vec!["to@x.test".into()],
        raw: vec![b'a'; size],
        received_at,
        expires_at,
        conn: conn(),
        subject: format!("subject {id}"),
        from_header: "X <from@x.test>".into(),
    })
}

fn ids(list: &[Arc<StoredEmail>]) -> Vec<String> {
    list.iter().map(|e| e.id.clone()).collect()
}

#[test]
fn the_oldest_message_makes_room_for_the_newest() {
    let mut store = MailStore::new(3600, 2);
    store.put(1, email("a", 0, 100, 1));
    store.put(1, email("b", 1, 100, 1));
    store.put(1, email("c", 2, 100, 1));
    assert_eq!(ids(&store.list_at(1, 50)), vec!["c", "b"]);
    assert!(store.get_at(1, "a", 50).is_none());
}

#[test]
fn messages_vanish_at_their_time() {
    let mut store = MailStore::new(3600, 10);
    store.put(1, email("a", 0, 100, 1));
    store.put(1, email("b", 1, 200, 1));
    assert_eq!(ids(&store.list_at(1, 99)), vec!["b", "a"]);
    assert_eq!(ids(&store.list_at(1, 100)), vec!["b"]);
    assert!(store.get_at(1, "a", 99).is_some());
    assert!(store.get_at(1, "a", 100).is_none());
    assert_eq!(store.sweep_at(100), 1);
    assert_eq!(store.sweep_at(100), 0);
    assert_eq!(ids(&store.list_at(1, 0)), vec!["b"]);
}

#[test]
fn a_mailbox_belongs_to_one_user() {
    let mut store = MailStore::new(3600, 10);
    store.put(1, email("a", 0, 100, 1));
    store.put(2, email("b", 0, 100, 1));
    assert_eq!(ids(&store.list_at(1, 0)), vec!["a"]);
    assert!(store.get_at(1, "b", 0).is_none());
    assert!(!store.delete(1, "b"));
    assert!(store.delete(2, "b"));
    assert!(!store.delete(2, "b"));
    store.clear(1);
    assert!(store.list_at(1, 0).is_empty());
}

#[test]
fn usage_counts_what_is_still_there() {
    let mut store = MailStore::new(3600, 10);
    store.put(1, email("a", 0, 100, 3));
    store.put(1, email("b", 0, 200, 4));
    store.put(2, email("c", 0, 50, 5));
    let usage = store.usage_at(100);
    assert_eq!(usage.get(&1), Some(&(1, 4)));
    assert_eq!(usage.get(&2), Some(&(0, 0)));
    assert_eq!(usage.len(), 2);
}

#[test]
fn a_new_retention_moves_what_is_already_stored() {
    let mut store = MailStore::new(100, 10);
    store.put(1, email("a", 1000, 1100, 1));
    store.set_limits(50, 5);
    let kept = store.list_at(1, 1000);
    assert_eq!(kept[0].expires_at, 1050);
    assert_eq!(kept[0].received_at, 1000);
    assert_eq!(kept[0].subject, "subject a");
}

#[test]
fn an_added_message_carries_its_headers_and_lives_for_the_retention() {
    let mut store = MailStore::new(3600, 10);
    let e = store.add(
        1,
        "sv_x".into(),
        "from@x.test".into(),
        vec!["to@x.test".into()],
        b"Subject: =?utf-8?q?caf=C3=A9?=\r\nFrom: Ann <ann@x.test>\r\n\r\nhi".to_vec(),
        conn(),
    );
    assert_eq!(e.subject, "caf\u{e9}");
    assert_eq!(e.from_header, "Ann <ann@x.test>");
    assert_eq!(e.expires_at - e.received_at, 3600);
    assert_eq!(e.id.len(), 24);
    assert!(e.id.chars().all(|c| c.is_ascii_alphanumeric()));
    assert_eq!(ids(&store.list(1)), vec![e.id.clone()]);
    assert_eq!(store.get(1, &e.id).map(|f| f.id.clone()), Some(e.id.clone()));
    assert_eq!(store.usage().get(&1).map(|u| u.0), Some(1));
    assert_eq!(store.sweep(), 0);
}

#[test]
fn summaries_say_what_is_missing() {
    assert_eq!(
        parse_summary(b"X-Only: 1\r\n\r\nhi"),
        ("(no subject)".to_string(), "(unknown sender)".to_string())
    );
    assert_eq!(
        parse_summary(b"Subject: s\r\nFrom: ann@x.test\r\n\r\nhi"),
        ("s".to_string(), "ann@x.test".to_string())
    );
    assert_eq!(
        parse_summary(b""),
        ("(unparseable message)".to_string(), "(unknown sender)".to_string())
    );
}

#[test]
fn a_listing_is_newest_first_and_counts_past_its_limit() {
    let mut store = MailStore::new(3600, 10);
    for id in ["a", "b", "c"] {
        store.put(1, email(id, 0, 100, 1));
    }
    store.put(2, email("other", 0, 100, 1));
    let all = list_at(&store, 1, &Filter::default(), 0);
    assert_eq!((all.count, all.total), (3, 3));
    assert_eq!(all.messages[0].id, "c");
    assert_eq!(all.messages[0].security, "tls");
    let filter = Filter {
        limit: Some(1),
        ..Filter::default()
    };
    let one = list_at(&store, 1, &filter, 0);
    assert_eq!((one.count, one.total), (1, 3));
    assert_eq!(one.messages.len(), 1);
    let filter = Filter {
        subject: Some("SUBJECT A".into()),
        from: Some("FROM@".into()),
        ..Filter::default()
    };
    assert_eq!(list_at(&store, 1, &filter, 0).messages[0].id, "a");
}

#[test]
fn the_latest_match_is_given_or_nothing() {
    let mut store = MailStore::new(3600, 10);
    store.put(1, email("a", 0, 100, 1));
    store.put(1, email("b", 0, 100, 1));
    let got = latest_at(&store, 1, &Filter::default(), 0).unwrap();
    assert_eq!(got.summary.id, "b");
    assert_eq!(got.raw, "a");
    let none = Filter {
        to: Some("nobody".into()),
        ..Filter::default()
    };
    let failure = latest_at(&store, 1, &none, 0).unwrap_err();
    assert_eq!((failure.status, failure.error), (404, "no message matches"));
    assert_eq!(get_one_at(&store, 1, "a", 0).unwrap().summary.id, "a");
    let failure = get_one_at(&store, 1, "a", 100).unwrap_err();
    assert_eq!(
        (failure.status, failure.error),
        (404, "message not found (it may have expired)")
    );
}

#[test]
fn an_attachment_is_described() {
    let raw = b"Subject: s\r\nMIME-Version: 1.0\r\nContent-Type: multipart/mixed; boundary=B\r\n\r\n--B\r\nContent-Type: text/plain\r\n\r\nbody\r\n--B\r\nContent-Type: application/pdf\r\nContent-Disposition: attachment; filename=\"x.pdf\"\r\n\r\nPDF!\r\n--B--\r\n";
    let mut store = MailStore::new(3600, 10);
    let e = store.add(1, "c".into(), "".into(), Vec::new(), raw.to_vec(), conn());
    let m = smtpvoid::web::api::full(&e);
    assert!(m.parsed);
    assert_eq!(m.text.as_deref(), Some("body"));
    assert_eq!(m.html, None);
    assert_eq!(m.attachments.len(), 1);
    assert_eq!(m.attachments[0].filename.as_deref(), Some("x.pdf"));
    assert_eq!(m.attachments[0].content_type.as_deref(), Some("application/pdf"));
    assert_eq!(m.attachments[0].size, 4);
}

#[test]
fn bytes_that_are_no_text_are_shown_lossily() {
    let mut store = MailStore::new(3600, 10);
    let e = store.add(1, "c".into(), "".into(), Vec::new(), b"A: b\xff\r\n\r\n".to_vec(), conn());
    let m = smtpvoid::web::api::full(&e);
    assert_eq!(m.raw, "A: b\u{fffd}\r\n\r\n");
    assert_eq!(m.headers[0].value, "b\u{fffd}");
}

#[test]
fn tokens_open_one_mailbox_or_none() {
    assert_eq!(require_token(Some("Bearer t"), None).unwrap(), "t");
    let failure = require_token(Some("Basic t"), Some("  ")).unwrap_err();
    assert_eq!((failure.status, failure.error), (401, MISSING_TOKEN));
    let user = User {
        id: 4,
        username: "u".into(),
        password_hash: "h".into(),
        is_admin: false,
    };
    assert_eq!(token_holder(Ok(Some(user))).unwrap().id, 4);
    let failure = token_holder(Ok(None)).unwrap_err();
    assert_eq!((failure.status, failure.error), (401, "unknown API token"));
    let failure = token_holder(Err("locked".into())).unwrap_err();
    assert_eq!((failure.status, failure.error), (500, "token lookup failed"));
}

#[test]
fn api_tokens_are_random() {
    let a = new_api_token();
    let b = new_api_token();
    assert!(a.starts_with("svapi_"));
    assert_eq!(a.len(), 46);
    assert_ne!(a, b);
}

#[test]
fn filters_fold_the_case_of_every_alphabet() {
    assert!(smtpvoid::web::api::contains("\u{c9}T\u{c9}", "\u{e9}t\u{e9}"));
    assert!(!smtpvoid::web::api::contains("abc", "abcd"));
}
