//! SMTP conversations from the first byte to the stored message.

use smtpvoid::db::CredAuth;
use smtpvoid::encoding::decode_base64;
use smtpvoid::mailstore::ConnKind;
use smtpvoid::smtp::command::{extract_angle_addr, size_parameter, split_command, split_plain};
use smtpvoid::smtp::connection::{Connection, Progress};
use smtpvoid::smtp::line::{LineBuffer, LineEvent, MAX_LINE};
use smtpvoid::smtp::session::{Next, Session, Step, Submission};

fn plain(max: usize) -> Connection {
    Connection::new(Session::open_plain(
        "mail.test".into(),
        max,
        "192.0.2.1:4242".into(),
    ))
}

fn send(c: &mut Connection, line: &str) -> Step {
    c.receive(line.as_bytes());
    c.receive(b"\r\n");
    match c.advance() {
        Progress::Answered(step) => step,
        Progress::NeedMore => panic!("no answer to {line}"),
        Progress::TooLong => panic!("{line} is too long"),
    }
}

fn credential() -> CredAuth {
    CredAuth {
        id: 7,
        user_id: 3,
        username: "sv_tester".into(),
        password: "secret".into(),
    }
}

/// AUTH PLAIN with `\0sv_tester\0secret`.
const PLAIN: &str = "AUTH PLAIN AHN2X3Rlc3RlcgBzZWNyZXQ=";

fn sign_in(c: &mut Connection) {
    send(c, "EHLO client.test");
    let step = send(c, PLAIN);
    match step.next {
        Next::LookupCredential { username } => assert_eq!(username, "sv_tester"),
        _ => panic!("a lookup was due"),
    }
    let step = c.credential_looked_up(Some(credential()));
    assert_eq!(step.replies, vec!["235 2.7.0 Authentication successful"]);
}

fn submission(step: Step) -> Submission {
    match step.next {
        Next::Store(s) => s,
        _ => panic!("a message was due"),
    }
}

#[test]
fn a_message_is_captured_as_it_was_written() {
    let mut c = plain(1000);
    assert_eq!(
        c.greeting(),
        "220 mail.test ESMTP SMTPVoid ready - test sink, nothing is ever delivered"
    );
    let step = send(&mut c, "ehlo client.test");
    assert_eq!(
        step.replies,
        vec![
            "250-mail.test greets client.test",
            "250-8BITMIME",
            "250-SIZE 1000",
            "250-STARTTLS",
            "250-AUTH PLAIN LOGIN",
            "250 ENHANCEDSTATUSCODES",
        ]
    );
    send(&mut c, PLAIN);
    c.credential_looked_up(Some(credential()));
    assert_eq!(
        send(&mut c, "MAIL FROM:<from@client.test> SIZE=20").replies,
        vec!["250 2.1.0 Sender OK"]
    );
    assert_eq!(
        send(&mut c, "RCPT TO:<anyone@anywhere.example>").replies,
        vec!["250 2.1.5 Recipient OK (message will be captured, never delivered)"]
    );
    assert_eq!(
        send(&mut c, "DATA").replies,
        vec!["354 End data with <CR><LF>.<CR><LF>"]
    );
    send(&mut c, "Subject: hi");
    send(&mut c, "");
    send(&mut c, "..dotted");
    let s = submission(send(&mut c, "."));
    assert_eq!(s.user_id, 3);
    assert_eq!(s.cred_id, 7);
    assert_eq!(s.cred_username, "sv_tester");
    assert_eq!(s.mail_from, "from@client.test");
    assert_eq!(s.rcpt_to, vec!["anyone@anywhere.example"]);
    assert_eq!(s.raw, b"Subject: hi\r\n\r\n.dotted\r\n".to_vec());
    assert_eq!(s.conn.kind, ConnKind::Plaintext);
    assert_eq!(s.conn.helo, "client.test");
    assert!(s.conn.esmtp);
    assert_eq!(s.conn.auth_mechanism, "PLAIN");
    assert_eq!(s.conn.peer_addr, "192.0.2.1:4242");
    let step = c.message_stored("abc", 0);
    assert_eq!(
        step.replies,
        vec!["250 2.0.0 OK: captured as abc - it will vanish at 1970-01-01 00:00:00 UTC and is never delivered"]
    );
    let step = send(&mut c, "QUIT");
    assert_eq!(step.replies, vec!["221 2.0.0 mail.test closing connection"]);
    assert!(matches!(step.next, Next::Close));
}

#[test]
fn without_authentication_nothing_is_taken() {
    let mut c = plain(1000);
    assert_eq!(
        send(&mut c, "MAIL FROM:<a@b.test>").replies,
        vec!["503 5.5.1 Send HELO/EHLO first"]
    );
    assert_eq!(
        send(&mut c, "HELO client").replies,
        vec!["250 mail.test greets client"]
    );
    assert_eq!(
        send(&mut c, "MAIL FROM:<a@b.test>").replies,
        vec!["530 5.7.0 Authentication required (create SMTP credentials in the web UI)"]
    );
    assert_eq!(
        send(&mut c, "RCPT TO:<a@b.test>").replies,
        vec!["503 5.5.1 Need MAIL command first"]
    );
    assert_eq!(
        send(&mut c, "DATA").replies,
        vec!["503 5.5.1 Need MAIL and RCPT first"]
    );
}

#[test]
fn a_wrong_password_does_not_authenticate() {
    let mut c = plain(1000);
    send(&mut c, "EHLO c");
    send(&mut c, PLAIN);
    let mut other = credential();
    other.password = "Secret".into();
    let step = c.credential_looked_up(Some(other));
    assert_eq!(
        step.replies,
        vec!["535 5.7.8 Authentication credentials invalid"]
    );
    assert_eq!(
        send(&mut c, "MAIL FROM:<a@b.test>").replies,
        vec!["530 5.7.0 Authentication required (create SMTP credentials in the web UI)"]
    );
}

#[test]
fn five_failed_authentications_end_the_session() {
    let mut c = plain(1000);
    send(&mut c, "EHLO c");
    for _ in 0..4 {
        send(&mut c, PLAIN);
        let step = c.credential_looked_up(None);
        assert!(matches!(step.next, Next::ReadLine));
    }
    send(&mut c, PLAIN);
    let step = c.credential_looked_up(None);
    assert_eq!(
        step.replies,
        vec![
            "535 5.7.8 Authentication credentials invalid",
            "421 4.7.0 Too many authentication failures, closing connection",
        ]
    );
    assert!(matches!(step.next, Next::Close));
}

#[test]
fn twenty_errors_end_the_session() {
    let mut c = plain(1000);
    for _ in 0..19 {
        let step = send(&mut c, "NONSENSE");
        assert_eq!(step.replies, vec!["500 5.5.1 Command not recognized"]);
    }
    let step = send(&mut c, "");
    assert_eq!(
        step.replies,
        vec![
            "500 5.5.2 Empty command",
            "421 4.7.0 Too many errors, closing connection",
        ]
    );
    assert!(matches!(step.next, Next::Close));
}

#[test]
fn login_credentials_come_on_two_lines() {
    let mut c = plain(1000);
    send(&mut c, "EHLO c");
    assert_eq!(send(&mut c, "auth login").replies, vec!["334 VXNlcm5hbWU6"]);
    assert_eq!(
        send(&mut c, "c3ZfdGVzdGVy").replies,
        vec!["334 UGFzc3dvcmQ6"]
    );
    match send(&mut c, "c2VjcmV0").next {
        Next::LookupCredential { username } => assert_eq!(username, "sv_tester"),
        _ => panic!("a lookup was due"),
    }
    c.credential_looked_up(Some(credential()));
    assert_eq!(
        send(&mut c, "AUTH PLAIN").replies,
        vec!["503 5.5.1 Already authenticated"]
    );
}

#[test]
fn authentication_can_be_malformed_or_aborted() {
    let mut c = plain(1000);
    send(&mut c, "EHLO c");
    assert_eq!(
        send(&mut c, "AUTH CRAM-MD5").replies,
        vec!["504 5.5.4 Unrecognized authentication type"]
    );
    assert_eq!(
        send(&mut c, "AUTH PLAIN !!!").replies,
        vec!["501 5.5.2 Invalid base64"]
    );
    assert_eq!(
        send(&mut c, "AUTH PLAIN AAAA").replies,
        vec!["501 5.5.2 Malformed AUTH PLAIN payload"]
    );
    assert_eq!(send(&mut c, "AUTH PLAIN").replies, vec!["334 "]);
    assert_eq!(
        send(&mut c, "*").replies,
        vec!["501 5.7.0 Authentication aborted"]
    );
    send(&mut c, "AUTH LOGIN c3ZfdGVzdGVy");
    assert_eq!(
        send(&mut c, " * ").replies,
        vec!["501 5.7.0 Authentication aborted"]
    );
}

#[test]
fn starttls_forgets_what_came_before() {
    let mut c = plain(1000);
    sign_in(&mut c);
    send(&mut c, "MAIL FROM:<a@b.test>");
    c.receive(b"STARTTLS\r\nRCPT TO:<injected@x.test>\r\n");
    let step = match c.advance() {
        Progress::Answered(s) => s,
        _ => panic!("an answer was due"),
    };
    assert_eq!(step.replies, vec!["220 2.0.0 Ready to start TLS"]);
    assert!(matches!(step.next, Next::StartTls));
    let step = c.tls_established(Some("TLSv1_3".into()), Some("SUITE".into()));
    assert!(step.replies.is_empty());
    // What was sent ahead in plaintext is gone, and so is the sign-in.
    assert!(matches!(c.advance(), Progress::NeedMore));
    assert_eq!(
        send(&mut c, "MAIL FROM:<a@b.test>").replies,
        vec!["503 5.5.1 Send HELO/EHLO first"]
    );
    assert_eq!(
        send(&mut c, "STARTTLS").replies,
        vec!["454 4.7.0 TLS not available"]
    );
    let hello = send(&mut c, "EHLO c");
    assert!(!hello.replies.contains(&"250-STARTTLS".to_string()));
    send(&mut c, PLAIN);
    c.credential_looked_up(Some(credential()));
    send(&mut c, "MAIL FROM:<>");
    send(&mut c, "RCPT TO:x@y.test");
    send(&mut c, "DATA");
    let s = submission(send(&mut c, "."));
    assert_eq!(s.conn.kind, ConnKind::StartTls);
    assert_eq!(s.conn.tls_version.as_deref(), Some("TLSv1_3"));
    assert_eq!(s.conn.tls_cipher.as_deref(), Some("SUITE"));
    assert_eq!(s.mail_from, "");
    assert!(s.raw.is_empty());
}

#[test]
fn implicit_tls_is_encrypted_from_the_start() {
    let mut c = Connection::new(Session::open_tls(
        "mail.test".into(),
        50,
        "p".into(),
        Some("TLSv1_2".into()),
        None,
    ));
    sign_in(&mut c);
    send(&mut c, "MAIL FROM:<a@b.test>");
    send(&mut c, "RCPT TO:<c@d.test>");
    send(&mut c, "DATA");
    let s = submission(send(&mut c, "."));
    assert_eq!(s.conn.kind, ConnKind::ImplicitTls);
    assert_eq!(s.conn.tls_version.as_deref(), Some("TLSv1_2"));
}

#[test]
fn an_oversized_message_is_turned_away() {
    let mut c = plain(10);
    sign_in(&mut c);
    assert_eq!(
        send(&mut c, "MAIL FROM:<a@b.test> SIZE=11").replies,
        vec!["552 5.3.4 Message size exceeds fixed maximum"]
    );
    send(&mut c, "MAIL FROM:<a@b.test> SIZE=10");
    send(&mut c, "RCPT TO:<c@d.test>");
    send(&mut c, "DATA");
    send(&mut c, "123456789");
    assert_eq!(
        send(&mut c, ".").replies,
        vec!["552 5.3.4 Message size exceeds fixed maximum"]
    );
    // Eight characters and their line end just fit.
    send(&mut c, "MAIL FROM:<a@b.test>");
    send(&mut c, "RCPT TO:<c@d.test>");
    send(&mut c, "DATA");
    send(&mut c, "12345678");
    assert_eq!(submission(send(&mut c, ".")).raw.len(), 10);
}

#[test]
fn a_message_has_at_most_fifty_recipients() {
    let mut c = plain(1000);
    sign_in(&mut c);
    send(&mut c, "MAIL FROM:<a@b.test>");
    assert_eq!(
        send(&mut c, "MAIL FROM:<a@b.test>").replies,
        vec!["503 5.5.1 Nested MAIL command"]
    );
    assert_eq!(
        send(&mut c, "RCPT TO:<>").replies,
        vec!["501 5.1.3 Bad recipient address syntax"]
    );
    assert_eq!(
        send(&mut c, "RCPT <x@y.test>").replies,
        vec!["501 5.5.4 Syntax: RCPT TO:<address>"]
    );
    for i in 0..50 {
        let step = send(&mut c, &format!("RCPT TO:<r{i}@d.test>"));
        assert!(step.replies[0].starts_with("250 "));
    }
    assert_eq!(
        send(&mut c, "RCPT TO:<one@more.test>").replies,
        vec!["452 4.5.3 Too many recipients"]
    );
    assert_eq!(send(&mut c, "RSET").replies, vec!["250 2.0.0 OK"]);
    assert_eq!(
        send(&mut c, "MAIL TO:<a@b.test>").replies,
        vec!["501 5.5.4 Syntax: MAIL FROM:<address>"]
    );
    assert_eq!(
        send(&mut c, "MAIL FROM:<a@b.test").replies,
        vec!["501 5.1.7 Bad sender address syntax"]
    );
}

#[test]
fn a_connection_takes_a_hundred_messages() {
    let mut c = plain(1000);
    sign_in(&mut c);
    for _ in 0..100 {
        send(&mut c, "MAIL FROM:<a@b.test>");
        send(&mut c, "RCPT TO:<c@d.test>");
        send(&mut c, "DATA");
        submission(send(&mut c, "."));
        c.message_stored("id", 0);
    }
    send(&mut c, "MAIL FROM:<a@b.test>");
    send(&mut c, "RCPT TO:<c@d.test>");
    assert_eq!(
        send(&mut c, "DATA").replies,
        vec!["452 4.5.3 Too many messages in one connection"]
    );
}

#[test]
fn the_small_commands_answer() {
    let mut c = plain(1000);
    assert_eq!(send(&mut c, "noop").replies, vec!["250 2.0.0 OK"]);
    assert_eq!(
        send(&mut c, "VRFY x").replies,
        vec!["252 2.1.5 Cannot VRFY, but the void accepts everyone"]
    );
    assert_eq!(
        send(&mut c, "HELP").replies,
        vec!["214 2.0.0 This is SMTPVoid; messages are stored briefly and never delivered"]
    );
    assert_eq!(
        send(&mut c, "HELO  ").replies,
        vec!["501 5.5.4 Hostname required"]
    );
}

#[test]
fn lines_end_with_a_line_feed_and_have_a_limit() {
    let mut b = LineBuffer::new();
    b.extend(b"one\r\ntwo\nthr");
    assert!(matches!(b.read_line(), LineEvent::Line(l) if l == "one"));
    assert!(matches!(b.read_line(), LineEvent::Line(l) if l == "two"));
    assert!(matches!(b.read_line(), LineEvent::NeedMore));
    b.extend(b"ee\r\r\n\xff\n");
    assert!(matches!(b.read_line(), LineEvent::Line(l) if l == "three\r"));
    assert!(matches!(b.read_line(), LineEvent::Line(l) if l == "\u{fffd}"));
    b.extend(&vec![b'x'; MAX_LINE]);
    assert!(matches!(b.read_line(), LineEvent::NeedMore));
    b.extend(b"x");
    assert!(matches!(b.read_line(), LineEvent::TooLong));
    b.upgrade();
    assert!(matches!(b.read_line(), LineEvent::NeedMore));
}

#[test]
fn commands_are_split_at_the_first_space() {
    assert_eq!(split_command("  mail  FROM:<a>  "), ("MAIL".into(), "FROM:<a>  ".into()));
    assert_eq!(split_command("quit\t"), ("QUIT".into(), "".into()));
    assert_eq!(split_command(""), ("".into(), "".into()));
    assert_eq!(split_command("stra\u{df}e x").0, "STRASSE");
}

#[test]
fn addresses_stand_in_brackets_or_alone() {
    assert_eq!(extract_angle_addr("<a@b.test> SIZE=1").as_deref(), Some("a@b.test"));
    assert_eq!(extract_angle_addr(" < a@b.test > ").as_deref(), Some("a@b.test"));
    assert_eq!(extract_angle_addr("<>").as_deref(), Some(""));
    assert_eq!(extract_angle_addr("a@b.test SIZE=1").as_deref(), Some("a@b.test"));
    assert_eq!(extract_angle_addr("<a@b.test"), None);
    assert_eq!(extract_angle_addr("   "), None);
}

#[test]
fn a_declared_size_is_the_first_one() {
    assert_eq!(size_parameter("<a> BODY=8BITMIME size=42 SIZE=7"), Some(42));
    assert_eq!(size_parameter("<a> SIZE=huge SIZE=7"), None);
    assert_eq!(size_parameter("<a>"), None);
}

#[test]
fn plain_payloads_have_three_parts() {
    assert_eq!(
        split_plain(b"authz\0user\0pass"),
        Some(("user".into(), "pass".into()))
    );
    assert_eq!(split_plain(b"user\0pass"), None);
    assert_eq!(split_plain(b"a\0b\0c\0d"), None);
}

#[test]
fn base64_is_read_in_its_one_form() {
    assert_eq!(decode_base64("AHN2X3Rlc3RlcgBzZWNyZXQ="), Some(b"\0sv_tester\0secret".to_vec()));
    assert_eq!(decode_base64(""), Some(Vec::new()));
    assert_eq!(decode_base64("/+8="), Some(vec![0xff, 0xef]));
    // No padding, too much of it, stray bits, blanks, the other alphabet.
    for bad in ["AA", "AA=", "AB==", "AA==AA==", "A A=", "_-8=", "AAAA\n"] {
        assert_eq!(decode_base64(bad), None, "{bad}");
    }
}
