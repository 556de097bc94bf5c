//! The pages of the web UI.

use std::collections::HashMap;
use std::sync::Arc;

use smtpvoid::acme::AcmeStatus;
use smtpvoid::config::Config;
use smtpvoid::db::{
    collect_stats, count_column, message_deltas, AdminUserRow, GlobalStats, SmtpCredential, User,
};
use smtpvoid::listeners::Kind;
use smtpvoid::mailstore::{ConnKind, ConnectionInfo, StoredEmail};
use smtpvoid::mime::Bodies;
use smtpvoid::settings::Settings;
use smtpvoid::tls::{CertInfo, CertSource};
use smtpvoid::web::admin::{admin_page, admin_page_at, usage_totals};
use smtpvoid::web::dashboard::{dashboard_page, dashboard_page_at, Endpoints};
use smtpvoid::web::html::{account_page, auth_page, badge, esc, index_page, layout, setup_page, Nav};
use smtpvoid::web::mail_view::{headers_of, mail_page, mail_page_at};
use smtpvoid::web::settings_page::settings_page;

fn user(is_admin: bool) -> User {
    User {
        id: 1,
        username: "ann".into(),
        password_hash: "h".into(),
        is_admin,
    }
}

fn email(raw: &[u8]) -> StoredEmail {
    StoredEmail {
        id: "m1".into(),
        cred_username: "sv_x".into(),
        mail_from: "".into(),
        rcpt_to: vec!["a@x.test".into(), "<b>@x.test".into()],
        raw: raw.to_vec(),
        received_at: 0,
        expires_at: 3600,
        conn: ConnectionInfo {
            kind: ConnKind::StartTls,
            tls_version: Some("TLSv1_3".into()),
            tls_cipher: None,
            peer_addr: "192.0.2.1:1".into(),
            helo: "client".into(),
            esmtp: true,
            auth_mechanism: "PLAIN".into(),
        },
        subject: "a <b> & c".into(),
        from_header: "Ann".into(),
    }
}

#[test]
fn markup_is_escaped() {
    assert_eq!(esc("<a href=\"x\">'&'</a>"), "&lt;a href=&quot;x&quot;&gt;&#39;&amp;&#39;&lt;/a&gt;");
    assert_eq!(esc("plain"), "plain");
}

#[test]
fn the_frame_shows_who_is_signed_in() {
    let page = layout("A & B", Nav::Anonymous, None, Some("no <way>"), "BODY");
    assert!(page.contains("A &amp; B"));
    assert!(page.contains("href=\"/login\""));
    assert!(page.contains("<div class=\"flash err\">no &lt;way&gt;</div>"));
    assert!(page.contains("BODY"));
    let u = user(true);
    let page = layout("T", Nav::User(&u), Some("ok"), Some("err"), "");
    assert!(page.contains("<a href=\"/admin\">Admin</a><a href=\"/admin/settings\">Settings</a>"));
    assert!(page.contains("<a class=\"who\" href=\"/account\">ann</a>"));
    assert!(page.contains("<div class=\"flash ok\">ok</div>"));
    assert!(!page.contains("flash err\">"));
    let u = user(false);
    assert!(!layout("T", Nav::User(&u), None, None, "").contains("href=\"/admin"));
}

#[test]
fn the_public_pages_say_what_the_server_is() {
    assert!(badge(ConnKind::Plaintext).contains("plaintext"));
    assert!(badge(ConnKind::StartTls).contains("STARTTLS"));
    assert!(badge(ConnKind::ImplicitTls).contains("TLS"));
    let open = index_page("h:587", "h:465", 3600, true);
    assert!(open.contains("h:587") && open.contains("h:465") && open.contains("1h 0m"));
    assert!(open.contains("/register"));
    assert!(!index_page("h:587", "h:465", 3600, false).contains("/register"));
    let form = auth_page("Sign in", "/login", "Go", "<i>extra</i>");
    assert!(form.contains("action=\"/login\"") && form.contains("<i>extra</i>"));
    assert!(setup_page().contains("name=\"token\""));
    assert!(account_page(&user(false)).contains("ann"));
}

#[test]
fn the_dashboard_shows_credentials_and_mail() {
    let creds = vec![SmtpCredential {
        id: 5,
        username: "sv_abc".into(),
        password: "p<w".into(),
        created_at: 0,
        total_messages: 2,
        last_used_at: None,
    }];
    let emails = vec![Arc::new(email(b"x"))];
    let at = Endpoints {
        smtp: "h:587",
        smtps: "h:465",
        hostname: "h",
    };
    let page = dashboard_page_at(&user(false), &creds, &emails, &at, "svapi_tok", 3600, 60);
    assert!(page.contains("sv_abc"));
    assert!(page.contains("p&lt;w"));
    assert!(page.contains("svapi_tok"));
    assert!(page.contains("a &lt;b&gt; &amp; c"));
    assert!(page.contains("59m 0s"));
    assert!(page.contains("never"));
    assert!(page.contains("/credentials/5/delete"));
    let none = dashboard_page(&user(false), &[], &[], &at, "t", 60);
    assert!(!none.contains("sv_abc"));
}

#[test]
fn the_message_page_shows_source_and_never_renders_it() {
    let bodies = Some(Bodies {
        text: Some("hi <there>".into()),
        html: Some("<b>hi</b>".into()),
        attachments: 2,
    });
    let e = email(b"Subject: s\r\nX: <y>\r\n\r\nbody");
    let page = mail_page_at(&e, &bodies, 60);
    assert!(page.contains("<h1>a &lt;b&gt; &amp; c</h1>"));
    assert!(page.contains("&lt;&gt; (null sender)"));
    assert!(page.contains("<code>a@x.test</code> <code>&lt;b&gt;@x.test</code>"));
    assert!(page.contains("hi &lt;there&gt;"));
    assert!(page.contains("<pre>&lt;b&gt;hi&lt;/b&gt;</pre>"));
    assert!(page.contains("2 attachment(s)"));
    assert!(page.contains("<pre>Subject: s\r\nX: &lt;y&gt;</pre>"));
    assert!(page.contains("1970-01-01 01:00:00 UTC (in 59m 0s)"));
    assert!(page.contains("(ESMTP)"));
    assert!(mail_page_at(&e, &None, 0).contains("Message could not be parsed"));
    let empty = Some(Bodies {
        text: None,
        html: None,
        attachments: 0,
    });
    assert!(mail_page_at(&e, &empty, 0).contains("No decodable body parts."));
    assert!(mail_page(&e).contains("<h2>Text body</h2><pre>body</pre>"));
    assert_eq!(headers_of(b"A: b\r\nC: d\r\n\r\ne\r\n\r\nf"), "A: b\r\nC: d");
    assert_eq!(headers_of(b"no blank line"), "no blank line");
}

#[test]
fn the_admin_page_counts() {
    let mut usage: HashMap<i64, (usize, usize)> = HashMap::new();
    usage.insert(1, (2, 1024));
    usage.insert(2, (3, 1024));
    assert_eq!(usage_totals(&usage), (5, 2048));
    usage.insert(3, (usize::MAX, 0));
    assert_eq!(usage_totals(&usage), (usize::MAX, 2048));
    usage.remove(&3);
    let row = AdminUserRow {
        id: 2,
        username: "b<o>b".into(),
        is_admin: false,
        created_at: 0,
        cred_count: 4,
        total_messages: 9,
        total_bytes: 1536,
        count_plaintext: 1,
        count_starttls: 2,
        count_tls: 6,
        last_message_at: None,
    };
    let stats = GlobalStats {
        total_users: 77,
        ..GlobalStats::default()
    };
    let page = admin_page_at(&stats, &[row], &usage, 0, 3600, 90_000);
    assert!(page.contains("<div class=\"num\">77</div>"));
    assert!(page.contains("<div class=\"num\">5</div>"));
    assert!(page.contains("<div class=\"num\">2.0 KiB</div>"));
    assert!(page.contains("<div class=\"num\">1d 1h</div>"));
    assert!(page.contains("b&lt;o&gt;b"));
    assert!(page.contains("3 (1.0 KiB)"));
    assert!(page.contains("1 / 2 / 6"));
    assert!(page.contains("/admin/users/2/delete"));
    assert!(admin_page(&stats, &[], &usage, 0, 60).contains("<h1>Admin</h1>"));
}

#[test]
fn the_settings_page_shows_what_is_in_force() {
    let s = Settings {
        hostname: "a\"b".into(),
        max_message_size: 1_572_864,
        acme_domains: vec!["a.test".into(), "b.test".into()],
        cookie_secure: true,
        ..Default::default()
    };
    let boot = Config::from_env(None, None);
    let cert = Some(CertInfo {
        source: CertSource::AcmeStaging,
        issuer: "Fake".into(),
        names: vec!["a.test".into()],
        not_before: 0,
        not_after: 0,
    });
    let mut status = AcmeStatus::idle();
    status.last_error = Some("boom <x>".into());
    let active = vec![(Kind::Smtp, "0.0.0.0:587".to_string())];
    let page = settings_page(&s, &boot, &cert, &status, &active);
    assert!(page.contains("value=\"a&quot;b\""));
    assert!(page.contains("name=\"max_message_size\" value=\"1.5\""));
    assert!(page.contains("name=\"acme_domains\" value=\"a.test,b.test\""));
    assert!(page.contains("name=\"cookie_secure\" value=\"1\" checked"));
    assert!(page.contains("name=\"acme_enabled\" value=\"1\">"));
    assert!(page.contains("untrusted"));
    assert!(page.contains("boom &lt;x&gt;"));
    assert!(page.contains("SMTP (plaintext + STARTTLS): <code>0.0.0.0:587</code>"));
    assert!(settings_page(&s, &boot, &None, &status, &active).contains("No certificate is loaded."));
}

#[test]
fn statistics_are_collected_from_their_rows() {
    assert_eq!(count_column(ConnKind::StartTls), "count_starttls");
    assert_eq!(
        message_deltas(7, ConnKind::ImplicitTls),
        vec![("total_messages", 1), ("total_bytes", 7), ("count_tls", 1)]
    );
    let rows = vec![
        ("total_messages".to_string(), 4),
        ("unknown".to_string(), 9),
        ("total_messages".to_string(), 5),
        ("count_plaintext".to_string(), 2),
    ];
    let stats = collect_stats(3, 8, &rows);
    assert_eq!(stats.total_users, 3);
    assert_eq!(stats.total_credentials, 8);
    assert_eq!(stats.total_messages, 5);
    assert_eq!(stats.count_plaintext, 2);
    assert_eq!(stats.total_bytes, 0);
}
