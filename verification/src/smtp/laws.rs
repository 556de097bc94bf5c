//! What holds of every SMTP session.

use vstd::prelude::*;
use vstd::utf8::*;

use crate::bytes::lemma_index_of_byte_is;
use crate::db::CredAuthView;
use crate::encoding::{base64_decodes_what_it_encodes, base64_has_no_whitespace, base64_text};
use crate::mailstore::ConnKind;
use crate::smtp::command::verb_of;
use crate::smtp::line::{a_written_line_is_read_back, has_line, line_bytes, CR, LF};
use crate::smtp::session::{
    asked, credential_turn, data_line_turn, fresh_plain, line_turn, login_pass_turn,
    login_user_turn, lookup_turn, plain_turn, refused, submission, tls_turn, unstuffed,
    without_transaction, NextView, Received, SessionView, StageView, Turn, MAX_AUTH_FAILURES,
    MAX_ERRORS,
};
use crate::text::{encoded_text_reads_back, lemma_ascii_byte_absent, lossy, trimmed};

verus! {

// ---- submission needs authentication ----

/// A session that has not authenticated cannot submit anything: it never hands a
/// message over, and it never has a sender.
pub proof fn an_unauthenticated_session_submits_nothing(s: SessionView, line: Seq<char>)
    requires
        s.wf(),
        s.stage.reads_line(),
        s.auth is None,
    ensures
        line_turn(s, line).next !is Store,
        line_turn(s, line).session.mail_from is None,
        line_turn(s, line).session.auth is None,
        s.stage is Command && verb_of(line) == "MAIL"@ && s.helo is Some ==> line_turn(s, line)
            == refused(
            s,
            "530 5.7.0 Authentication required (create SMTP credentials in the web UI)"@,
        ),
{
    reveal_strlit("HELO");
    reveal_strlit("EHLO");
    reveal_strlit("STARTTLS");
    reveal_strlit("AUTH");
    reveal_strlit("MAIL");
    if verb_of(line) == "MAIL"@ {
        assert("MAIL"@[0] != "HELO"@[0] && "MAIL"@[0] != "EHLO"@[0] && "MAIL"@[0] != "AUTH"@[0]);
        assert("MAIL"@[0] != "STARTTLS"@[0]);
    }
}

/// Authentication takes a credential with the name and the password that the
/// client gave: no other turn of a session authenticates it.
pub proof fn only_a_matching_credential_authenticates(
    s: SessionView,
    line: Seq<char>,
    cred: Option<CredAuthView>,
)
    requires
        s.wf(),
        s.auth is None,
    ensures
        s.stage.reads_line() ==> line_turn(s, line).session.auth is None,
        s.stage is AuthLookup ==> (credential_turn(s, cred).session.auth is Some <==> cred is Some
            && cred->0.password == s.stage->password),
        s.stage is AuthLookup && credential_turn(s, cred).session.auth is Some ==> {
            let auth = credential_turn(s, cred).session.auth->0;
            auth.user_id == cred->0.user_id && auth.cred_id == cred->0.id && auth.cred_username
                == cred->0.username
        },
{
    if s.stage.reads_line() {
        an_unauthenticated_session_submits_nothing(s, line);
    }
}

/// A message that is handed over belongs to the credential that the session has
/// authenticated with, has a recipient, and keeps to the maximum size.
pub proof fn a_submission_belongs_to_its_sender(s: SessionView, line: Seq<char>)
    requires
        s.wf(),
        s.stage.reads_line(),
        line_turn(s, line).next is Store,
    ensures
        s.auth is Some,
        s.stage is Data,
        line == "."@,
        line_turn(s, line).next == NextView::Store(submission(s, s.stage->body)),
        line_turn(s, line).next->Store_0.user_id == s.auth->0.user_id,
        line_turn(s, line).next->Store_0.rcpt_to.len() > 0,
        line_turn(s, line).next->Store_0.raw.len() <= s.max_message_size,
{
}

// ---- failures end a session ----

/// Whether a turn respects the limits on errors and authentication failures.
pub open spec fn within_limits(t: Turn) -> bool {
    t.session.errors >= MAX_ERRORS || t.session.auth_failures >= MAX_AUTH_FAILURES ==> t.next
        is Close
}

/// A session that has seen too many errors, or too many authentication failures,
/// is disconnected.
pub proof fn repeated_failures_end_the_session(
    s: SessionView,
    line: Seq<char>,
    cred: Option<CredAuthView>,
)
    requires
        s.wf(),
        s.stage !is Closed,
    ensures
        s.stage.reads_line() ==> within_limits(line_turn(s, line)),
        s.stage is AuthLookup ==> within_limits(credential_turn(s, cred)),
        s.stage is AuthLookup && (cred is None || cred->0.password != s.stage->password)
            && s.auth_failures + 1 == MAX_AUTH_FAILURES ==> credential_turn(s, cred).next is Close,
{
}

// ---- STARTTLS ----

/// STARTTLS takes a session back to where it started: nothing that the client
/// said in plaintext survives, and STARTTLS is not offered again. Only the
/// counters go on.
pub proof fn starttls_starts_over(
    s: SessionView,
    version: Option<Seq<char>>,
    cipher: Option<Seq<char>>,
)
    requires
        s.wf(),
        s.stage is Handshake,
    ensures
        tls_turn(s, version, cipher) == (Turn {
            session: SessionView {
                starttls: false,
                kind: ConnKind::StartTls,
                tls_version: version,
                tls_cipher: cipher,
                auth_failures: s.auth_failures,
                errors: s.errors,
                messages: s.messages,
                ..fresh_plain(s.hostname, s.max_message_size, s.peer)
            },
            replies: Seq::empty(),
            next: NextView::ReadLine,
        }),
{
}

// ---- messages ----

/// A line as a client sends it: a line that begins with a dot gets one more.
pub open spec fn stuffed(line: Seq<char>) -> Seq<char> {
    if line.len() > 0 && line[0] == '.' {
        seq!['.'] + line
    } else {
        line
    }
}

/// The bytes of a message that consists of `lines`.
pub open spec fn message_bytes(lines: Seq<Seq<char>>) -> Seq<u8>
    decreases lines.len(),
{
    if lines.len() == 0 {
        Seq::empty()
    } else {
        message_bytes(lines.drop_last()) + encode_utf8(lines.last()) + seq![CR, LF]
    }
}

/// The session after the client has sent `lines`, each with its dot.
pub open spec fn after_lines(s: SessionView, lines: Seq<Seq<char>>) -> SessionView
    decreases lines.len(),
{
    if lines.len() == 0 {
        s
    } else {
        line_turn(after_lines(s, lines.drop_last()), stuffed(lines.last())).session
    }
}

/// Dot-stuffing is undone, and a stuffed line is never taken for the end of the
/// message.
pub proof fn stuffing_is_undone(line: Seq<char>)
    ensures
        unstuffed(stuffed(line)) == line,
        stuffed(line) != "."@,
{
    reveal_strlit(".");
    assert((seq!['.'] + line).skip(1) =~= line);
    if stuffed(line) == "."@ {
        assert(stuffed(line).len() == 1);
        assert(stuffed(line)[0] == '.');
        if line.len() > 0 && line[0] == '.' {
            assert(stuffed(line).len() == 1 + line.len());
        }
    }
}

proof fn lemma_lines_received(s: SessionView, lines: Seq<Seq<char>>)
    requires
        s.stage == (StageView::Data { body: Seq::empty(), oversize: false }),
    ensures
        after_lines(s, lines).stage is Data,
        after_lines(s, lines) == (SessionView { stage: after_lines(s, lines).stage, ..s }),
        message_bytes(lines).len() <= s.max_message_size ==> after_lines(s, lines).stage == (
        StageView::Data { body: message_bytes(lines), oversize: false }),
        message_bytes(lines).len() > s.max_message_size ==> after_lines(s, lines).stage->oversize,
    decreases lines.len(),
{
    if lines.len() > 0 {
        let before = after_lines(s, lines.drop_last());
        lemma_lines_received(s, lines.drop_last());
        stuffing_is_undone(lines.last());
        let r = Received { body: before.stage->body, oversize: before.stage->oversize };
        assert(line_turn(before, stuffed(lines.last())) == data_line_turn(
            before,
            r,
            stuffed(lines.last()),
        ));
    }
}

/// A message arrives as it was written: of a client that sends `lines`, each with
/// its dot, and then the final dot, the message that is handed over consists of
/// these lines.
pub proof fn a_message_arrives_as_written(s: SessionView, lines: Seq<Seq<char>>)
    requires
        s.stage == (StageView::Data { body: Seq::empty(), oversize: false }),
        message_bytes(lines).len() <= s.max_message_size,
    ensures
        line_turn(after_lines(s, lines), "."@) == (Turn {
            session: SessionView { stage: StageView::Storing, ..without_transaction(s) },
            replies: Seq::empty(),
            next: NextView::Store(submission(s, message_bytes(lines))),
        }),
{
    lemma_lines_received(s, lines);
}

/// A message that is larger than the maximum is refused once it is complete.
pub proof fn an_oversized_message_is_refused(s: SessionView, lines: Seq<Seq<char>>)
    requires
        s.stage == (StageView::Data { body: Seq::empty(), oversize: false }),
        message_bytes(lines).len() > s.max_message_size,
    ensures
        line_turn(after_lines(s, lines), "."@) == refused(
            without_transaction(s),
            "552 5.3.4 Message size exceeds fixed maximum"@,
        ),
{
    lemma_lines_received(s, lines);
}

/// A line that a client writes in UTF-8 and ends with CRLF is the line that the
/// session reads.
pub proof fn a_line_of_text_is_read_as_written(line: Seq<char>, rest: Seq<u8>)
    requires
        forall|i: int| 0 <= i < line.len() ==> line[i] != '\n',
    ensures
        has_line(encode_utf8(line) + seq![CR, LF] + rest),
        lossy(line_bytes(encode_utf8(line) + seq![CR, LF] + rest)) == line,
{
    lemma_ascii_byte_absent(line, LF);
    a_written_line_is_read_back(encode_utf8(line), rest);
    encoded_text_reads_back(line);
}

// ---- credentials ----

/// The payload of AUTH PLAIN: an empty authorization identity, the user name and
/// the password.
pub open spec fn plain_payload(username: Seq<char>, password: Seq<char>) -> Seq<u8> {
    seq![0u8] + encode_utf8(username) + seq![0u8] + encode_utf8(password)
}

/// The user name and the password that a client sends with AUTH PLAIN are the
/// ones that are looked up.
pub proof fn plain_credentials_are_understood(
    s: SessionView,
    username: Seq<char>,
    password: Seq<char>,
)
    requires
        forall|i: int| 0 <= i < username.len() ==> username[i] != '\0',
        forall|i: int| 0 <= i < password.len() ==> password[i] != '\0',
    ensures
        plain_turn(s, base64_text(plain_payload(username, password))) == lookup_turn(
            s,
            username,
            password,
            "PLAIN"@,
        ),
{
    let b = plain_payload(username, password);
    let u = encode_utf8(username);
    let p = encode_utf8(password);
    let payload = base64_text(b);
    reveal_strlit("*");
    base64_has_no_whitespace(b);
    assert(payload.len() >= 4);
    assert(payload != "*"@);
    assert(trimmed(payload) == payload);
    base64_decodes_what_it_encodes(b);
    lemma_ascii_byte_absent(username, 0);
    lemma_ascii_byte_absent(password, 0);
    assert(b[0] == 0);
    lemma_index_of_byte_is(b, 0, 0);
    let rest = b.skip(1);
    assert(rest =~= u + seq![0u8] + p);
    assert forall|i: int| 0 <= i < u.len() implies rest[i] != 0 by {
        assert(rest[i] == u[i]);
    }
    assert(rest[u.len() as int] == 0);
    lemma_index_of_byte_is(rest, 0, u.len() as int);
    let last = rest.skip(u.len() as int + 1);
    assert(last =~= p);
    lemma_index_of_byte_is(last, 0, p.len() as int);
    assert(rest.take(u.len() as int) =~= u);
    encoded_text_reads_back(username);
    encoded_text_reads_back(password);
}

/// The same holds of AUTH LOGIN, where the two come one after the other. A user
/// name or a password of no characters is an empty line there.
pub proof fn login_credentials_are_understood(
    s: SessionView,
    username: Seq<char>,
    password: Seq<char>,
)
    ensures
        login_user_turn(s, base64_text(encode_utf8(username))) == asked(
            s,
            StageView::AuthLoginPass { username: base64_text(encode_utf8(username)) },
            "334 UGFzc3dvcmQ6"@,
        ),
        login_pass_turn(
            s,
            base64_text(encode_utf8(username)),
            base64_text(encode_utf8(password)),
        ) == lookup_turn(s, username, password, "LOGIN"@),
{
    reveal_strlit("*");
    let u = base64_text(encode_utf8(username));
    let p = base64_text(encode_utf8(password));
    base64_has_no_whitespace(encode_utf8(username));
    base64_has_no_whitespace(encode_utf8(password));
    assert(trimmed(u) == u);
    assert(trimmed(p) == p);
    assert(u.len() == 0 || u.len() >= 4);
    assert(p.len() == 0 || p.len() >= 4);
    base64_decodes_what_it_encodes(encode_utf8(username));
    base64_decodes_what_it_encodes(encode_utf8(password));
    encoded_text_reads_back(username);
    encoded_text_reads_back(password);
}

} // verus!
