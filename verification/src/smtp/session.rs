//! One SMTP session: what each line from the client is answered, and what has
//! to be done about it.

use vstd::prelude::*;
use vstd::string::*;
use vstd::utf8::*;

use crate::bytes::append_bytes;
use crate::config::{fmt_ts, time_text};
use crate::db::{CredAuth, CredAuthView};
use crate::encoding::{base64_bytes, decode_base64};
use crate::mailstore::{ConnKind, ConnectionInfo, ConnectionView};
use crate::smtp::command::{
    address_of, argument_of, declared_size, extract_angle_addr, has_keyword, plain_credentials,
    size_parameter, split_command, split_plain, starts_with_keyword, verb_of,
};
use crate::text::{
    bytes_in, chars_of, copy_opt, decimal, find_char, from_utf8_lossy, index_of, lossy, opt_text,
    same, show_usize, skip_chars, starts_with, text_range, texts, to_uppercase, trim, trimmed,
    unicode_upper, words,
};

verus! {

pub const MAX_RCPT: usize = 50;

pub const MAX_MESSAGES_PER_CONN: u32 = 100;

pub const MAX_AUTH_FAILURES: u32 = 5;

pub const MAX_ERRORS: u32 = 20;

// ---- what a session knows ----

/// The credential a client has authenticated with.
pub struct AuthedAs {
    pub cred_id: i64,
    pub user_id: i64,
    pub cred_username: String,
    pub mechanism: String,
}

/// What an [`AuthedAs`] says.
#[verifier::ext_equal]
pub struct AuthedView {
    pub cred_id: i64,
    pub user_id: i64,
    pub cred_username: Seq<char>,
    pub mechanism: Seq<char>,
}

impl View for AuthedAs {
    type V = AuthedView;

    open spec fn view(&self) -> AuthedView {
        AuthedView {
            cred_id: self.cred_id,
            user_id: self.user_id,
            cred_username: self.cred_username@,
            mechanism: self.mechanism@,
        }
    }
}

/// What a session is waiting for.
enum Stage {
    /// A command line.
    Command,
    /// The payload of AUTH PLAIN.
    AuthPlain,
    /// The user name of AUTH LOGIN.
    AuthLoginUser,
    /// The password of AUTH LOGIN; the user name is as it was received.
    AuthLoginPass { username: String },
    /// The credential that goes by the user name the client gave.
    AuthLookup { password: String, mechanism: String },
    /// The TLS handshake.
    Handshake,
    /// A line of the message, or its end.
    Data { body: Vec<u8>, oversize: bool },
    /// The message to be stored.
    Storing,
    /// Nothing: the session is over.
    Closed,
}

/// What a session is waiting for.
#[verifier::ext_equal]
pub enum StageView {
    Command,
    AuthPlain,
    AuthLoginUser,
    AuthLoginPass { username: Seq<char> },
    AuthLookup { password: Seq<char>, mechanism: Seq<char> },
    Handshake,
    Data { body: Seq<u8>, oversize: bool },
    Storing,
    Closed,
}

impl StageView {
    /// Whether the client's next line is what the session waits for.
    pub open spec fn reads_line(self) -> bool {
        ||| self is Command
        ||| self is AuthPlain
        ||| self is AuthLoginUser
        ||| self is AuthLoginPass
        ||| self is Data
    }
}

impl Stage {
    spec fn text(self) -> StageView {
        match self {
            Stage::Command => StageView::Command,
            Stage::AuthPlain => StageView::AuthPlain,
            Stage::AuthLoginUser => StageView::AuthLoginUser,
            Stage::AuthLoginPass { username } => StageView::AuthLoginPass { username: username@ },
            Stage::AuthLookup { password, mechanism } => StageView::AuthLookup {
                password: password@,
                mechanism: mechanism@,
            },
            Stage::Handshake => StageView::Handshake,
            Stage::Data { body, oversize } => StageView::Data { body: body@, oversize },
            Stage::Storing => StageView::Storing,
            Stage::Closed => StageView::Closed,
        }
    }
}

/// An SMTP session.
pub struct Session {
    hostname: String,
    max_message_size: usize,
    peer: String,
    /// Offered on the plaintext listener until upgraded.
    starttls: bool,
    kind: ConnKind,
    tls_version: Option<String>,
    tls_cipher: Option<String>,
    helo: Option<String>,
    esmtp: bool,
    auth: Option<AuthedAs>,
    mail_from: Option<String>,
    rcpt_to: Vec<String>,
    auth_failures: u32,
    errors: u32,
    messages: u32,
    stage: Stage,
}

/// The state of a [`Session`].
#[verifier::ext_equal]
pub struct SessionView {
    pub hostname: Seq<char>,
    pub max_message_size: nat,
    pub peer: Seq<char>,
    pub starttls: bool,
    pub kind: ConnKind,
    pub tls_version: Option<Seq<char>>,
    pub tls_cipher: Option<Seq<char>>,
    pub helo: Option<Seq<char>>,
    pub esmtp: bool,
    pub auth: Option<AuthedView>,
    pub mail_from: Option<Seq<char>>,
    pub rcpt_to: Seq<Seq<char>>,
    pub auth_failures: nat,
    pub errors: nat,
    pub messages: nat,
    pub stage: StageView,
}

pub open spec fn opt_authed(a: Option<AuthedAs>) -> Option<AuthedView> {
    match a {
        Some(a) => Some(a@),
        None => None,
    }
}

impl View for Session {
    type V = SessionView;

    closed spec fn view(&self) -> SessionView {
        SessionView {
            hostname: self.hostname@,
            max_message_size: self.max_message_size as nat,
            peer: self.peer@,
            starttls: self.starttls,
            kind: self.kind,
            tls_version: opt_text(self.tls_version),
            tls_cipher: opt_text(self.tls_cipher),
            helo: opt_text(self.helo),
            esmtp: self.esmtp,
            auth: opt_authed(self.auth),
            mail_from: opt_text(self.mail_from),
            rcpt_to: texts(self.rcpt_to@),
            auth_failures: self.auth_failures as nat,
            errors: self.errors as nat,
            messages: self.messages as nat,
            stage: self.stage.text(),
        }
    }
}

impl SessionView {
    /// What holds of every session, whatever the client sends.
    pub open spec fn wf(self) -> bool {
        &&& self.max_message_size <= usize::MAX
        &&& self.errors <= MAX_ERRORS
        &&& self.auth_failures <= MAX_AUTH_FAILURES
        &&& self.messages <= MAX_MESSAGES_PER_CONN
        &&& self.rcpt_to.len() <= MAX_RCPT
        &&& self.stage !is Closed ==> self.errors < MAX_ERRORS && self.auth_failures
            < MAX_AUTH_FAILURES
        &&& self.mail_from is Some ==> self.helo is Some && self.auth is Some
        &&& self.rcpt_to.len() > 0 ==> self.mail_from is Some
        &&& self.starttls ==> self.kind == ConnKind::Plaintext
        &&& self.stage is AuthPlain ==> self.auth is None
        &&& self.stage is AuthLoginUser ==> self.auth is None
        &&& self.stage is AuthLoginPass ==> self.auth is None
        &&& self.stage is AuthLookup ==> self.auth is None
        &&& self.stage is Handshake ==> self.kind == ConnKind::Plaintext && !self.starttls
        &&& self.stage is Data ==> {
            &&& self.mail_from is Some
            &&& self.rcpt_to.len() > 0
            &&& self.messages < MAX_MESSAGES_PER_CONN
            &&& self.stage->body.len() <= self.max_message_size
        }
        &&& self.stage is Storing ==> self.messages < MAX_MESSAGES_PER_CONN
    }
}

// ---- what a session asks for ----

/// A message to be stored, with everything that is known of it.
pub struct Submission {
    pub user_id: i64,
    pub cred_id: i64,
    pub cred_username: String,
    pub mail_from: String,
    pub rcpt_to: Vec<String>,
    pub raw: Vec<u8>,
    pub conn: ConnectionInfo,
}

/// What a [`Submission`] says.
#[verifier::ext_equal]
pub struct SubmissionView {
    pub user_id: i64,
    pub cred_id: i64,
    pub cred_username: Seq<char>,
    pub mail_from: Seq<char>,
    pub rcpt_to: Seq<Seq<char>>,
    pub raw: Seq<u8>,
    pub conn: ConnectionView,
}

impl View for Submission {
    type V = SubmissionView;

    open spec fn view(&self) -> SubmissionView {
        SubmissionView {
            user_id: self.user_id,
            cred_id: self.cred_id,
            cred_username: self.cred_username@,
            mail_from: self.mail_from@,
            rcpt_to: texts(self.rcpt_to@),
            raw: self.raw@,
            conn: self.conn@,
        }
    }
}

/// What has to be done once the replies of a step are sent.
pub enum Next {
    /// Read the next line and hand it to [`Session::on_line`].
    ReadLine,
    /// Perform the TLS handshake, then call [`Session::tls_established`].
    StartTls,
    /// Look the credential up, then call [`Session::credential_looked_up`].
    LookupCredential { username: String },
    /// Store the message, then call [`Session::message_stored`].
    Store(Submission),
    /// Close the connection.
    Close,
}

/// What has to be done once the replies of a step are sent.
#[verifier::ext_equal]
pub enum NextView {
    ReadLine,
    StartTls,
    LookupCredential { username: Seq<char> },
    Store(SubmissionView),
    Close,
}

impl View for Next {
    type V = NextView;

    open spec fn view(&self) -> NextView {
        match self {
            Next::ReadLine => NextView::ReadLine,
            Next::StartTls => NextView::StartTls,
            Next::LookupCredential { username } => NextView::LookupCredential {
                username: username@,
            },
            Next::Store(m) => NextView::Store(m@),
            Next::Close => NextView::Close,
        }
    }
}

/// One step of a session: lines to send, each without its CRLF, and what to do
/// after that.
pub struct Step {
    pub replies: Vec<String>,
    pub next: Next,
}

/// A step, and the session after it.
#[verifier::ext_equal]
pub struct Turn {
    pub session: SessionView,
    pub replies: Seq<Seq<char>>,
    pub next: NextView,
}

pub open spec fn turn_of(session: SessionView, step: Step) -> Turn {
    Turn { session, replies: texts(step.replies@), next: step.next@ }
}

// ---- the protocol ----

/// A command is done: the session goes on, unless it has seen too many errors or
/// authentication failures.
pub open spec fn finished(s: SessionView, replies: Seq<Seq<char>>) -> Turn {
    if s.errors >= MAX_ERRORS {
        Turn {
            session: SessionView { stage: StageView::Closed, ..s },
            replies: replies.push("421 4.7.0 Too many errors, closing connection"@),
            next: NextView::Close,
        }
    } else if s.auth_failures >= MAX_AUTH_FAILURES {
        Turn {
            session: SessionView { stage: StageView::Closed, ..s },
            replies: replies.push(
                "421 4.7.0 Too many authentication failures, closing connection"@,
            ),
            next: NextView::Close,
        }
    } else {
        Turn {
            session: SessionView { stage: StageView::Command, ..s },
            replies,
            next: NextView::ReadLine,
        }
    }
}

/// A command is answered with one line.
pub open spec fn answered(s: SessionView, reply: Seq<char>) -> Turn {
    finished(s, seq![reply])
}

/// A command is refused, which counts as an error.
pub open spec fn refused(s: SessionView, reply: Seq<char>) -> Turn {
    answered(SessionView { errors: s.errors + 1nat, ..s }, reply)
}

/// An authentication attempt is refused, which counts as an error and as an
/// authentication failure.
pub open spec fn auth_refused(s: SessionView, reply: Seq<char>) -> Turn {
    refused(SessionView { auth_failures: s.auth_failures + 1nat, ..s }, reply)
}

/// The client is asked for one more line.
pub open spec fn asked(s: SessionView, stage: StageView, reply: Seq<char>) -> Turn {
    Turn { session: SessionView { stage, ..s }, replies: seq![reply], next: NextView::ReadLine }
}

/// The session without a mail transaction.
pub open spec fn without_transaction(s: SessionView) -> SessionView {
    SessionView { mail_from: None, rcpt_to: Seq::empty(), ..s }
}

pub open spec fn ehlo_replies(s: SessionView, name: Seq<char>) -> Seq<Seq<char>> {
    seq![
        "250-"@ + s.hostname + " greets "@ + name,
        "250-8BITMIME"@,
        "250-SIZE "@ + decimal(s.max_message_size),
    ] + (if s.starttls {
        seq!["250-STARTTLS"@]
    } else {
        Seq::empty()
    }) + seq!["250-AUTH PLAIN LOGIN"@, "250 ENHANCEDSTATUSCODES"@]
}

/// HELO and EHLO.
pub open spec fn helo_turn(s: SessionView, arg: Seq<char>, esmtp: bool) -> Turn {
    let name = trimmed(arg);
    if name.len() == 0 {
        refused(s, "501 5.5.4 Hostname required"@)
    } else {
        let greeted = SessionView { helo: Some(name), esmtp, ..without_transaction(s) };
        if esmtp {
            finished(greeted, ehlo_replies(s, name))
        } else {
            answered(greeted, "250 "@ + s.hostname + " greets "@ + name)
        }
    }
}

/// STARTTLS.
pub open spec fn starttls_turn(s: SessionView) -> Turn {
    if s.starttls {
        Turn {
            session: SessionView { starttls: false, stage: StageView::Handshake, ..s },
            replies: seq!["220 2.0.0 Ready to start TLS"@],
            next: NextView::StartTls,
        }
    } else {
        refused(s, "454 4.7.0 TLS not available"@)
    }
}

/// The handshake is done. RFC 3207: back to the initial state.
pub open spec fn tls_turn(
    s: SessionView,
    version: Option<Seq<char>>,
    cipher: Option<Seq<char>>,
) -> Turn {
    finished(
        SessionView {
            kind: ConnKind::StartTls,
            tls_version: version,
            tls_cipher: cipher,
            helo: None,
            esmtp: false,
            auth: None,
            ..without_transaction(s)
        },
        Seq::empty(),
    )
}

/// The credential that goes by `username` is looked up.
pub open spec fn lookup_turn(
    s: SessionView,
    username: Seq<char>,
    password: Seq<char>,
    mechanism: Seq<char>,
) -> Turn {
    Turn {
        session: SessionView { stage: StageView::AuthLookup { password, mechanism }, ..s },
        replies: Seq::empty(),
        next: NextView::LookupCredential { username },
    }
}

/// The payload of AUTH PLAIN.
pub open spec fn plain_turn(s: SessionView, payload: Seq<char>) -> Turn {
    if payload == "*"@ {
        refused(s, "501 5.7.0 Authentication aborted"@)
    } else {
        match base64_bytes(trimmed(payload)) {
            None => auth_refused(s, "501 5.5.2 Invalid base64"@),
            Some(b) => match plain_credentials(b) {
                None => auth_refused(s, "501 5.5.2 Malformed AUTH PLAIN payload"@),
                Some((username, password)) => lookup_turn(s, username, password, "PLAIN"@),
            },
        }
    }
}

/// The user name of AUTH LOGIN.
pub open spec fn login_user_turn(s: SessionView, username: Seq<char>) -> Turn {
    if trimmed(username) == "*"@ {
        refused(s, "501 5.7.0 Authentication aborted"@)
    } else {
        asked(s, StageView::AuthLoginPass { username }, "334 UGFzc3dvcmQ6"@)
    }
}

/// The password of AUTH LOGIN.
pub open spec fn login_pass_turn(
    s: SessionView,
    username: Seq<char>,
    password: Seq<char>,
) -> Turn {
    if trimmed(password) == "*"@ {
        refused(s, "501 5.7.0 Authentication aborted"@)
    } else {
        match (base64_bytes(trimmed(username)), base64_bytes(trimmed(password))) {
            (Some(u), Some(p)) => lookup_turn(s, lossy(u), lossy(p), "LOGIN"@),
            _ => auth_refused(s, "501 5.5.2 Invalid base64"@),
        }
    }
}

/// AUTH.
pub open spec fn auth_turn(s: SessionView, arg: Seq<char>) -> Turn {
    let t = trimmed(arg);
    let i = index_of(t, ' ');
    let mechanism = unicode_upper(t.take(i));
    let initial = if i < t.len() {
        trimmed(t.skip(i + 1))
    } else {
        Seq::empty()
    };
    if s.auth is Some {
        refused(s, "503 5.5.1 Already authenticated"@)
    } else if mechanism == "PLAIN"@ {
        if initial.len() == 0 {
            asked(s, StageView::AuthPlain, "334 "@)
        } else {
            plain_turn(s, initial)
        }
    } else if mechanism == "LOGIN"@ {
        if initial.len() == 0 {
            asked(s, StageView::AuthLoginUser, "334 VXNlcm5hbWU6"@)
        } else {
            login_user_turn(s, initial)
        }
    } else {
        refused(s, "504 5.5.4 Unrecognized authentication type"@)
    }
}

/// The credential was looked up: it has to exist, and its password has to be the
/// one that the client gave.
pub open spec fn credential_turn(s: SessionView, cred: Option<CredAuthView>) -> Turn {
    match (s.stage, cred) {
        (StageView::AuthLookup { password, mechanism }, Some(c)) if c.password == password =>
            answered(
            SessionView {
                auth: Some(
                    AuthedView {
                        cred_id: c.id,
                        user_id: c.user_id,
                        cred_username: c.username,
                        mechanism,
                    },
                ),
                ..s
            },
            "235 2.7.0 Authentication successful"@,
        ),
        _ => auth_refused(s, "535 5.7.8 Authentication credentials invalid"@),
    }
}

/// MAIL.
pub open spec fn mail_turn(s: SessionView, arg: Seq<char>) -> Turn {
    let t = trimmed(arg);
    let rest = t.skip(5);
    if s.helo is None {
        refused(s, "503 5.5.1 Send HELO/EHLO first"@)
    } else if s.auth is None {
        refused(
            s,
            "530 5.7.0 Authentication required (create SMTP credentials in the web UI)"@,
        )
    } else if s.mail_from is Some {
        refused(s, "503 5.5.1 Nested MAIL command"@)
    } else if !has_keyword(t, "FROM:"@) {
        refused(s, "501 5.5.4 Syntax: MAIL FROM:<address>"@)
    } else {
        match address_of(rest) {
            None => refused(s, "501 5.1.7 Bad sender address syntax"@),
            Some(addr) => match declared_size(words(rest)) {
                Some(size) if size > s.max_message_size => refused(
                    s,
                    "552 5.3.4 Message size exceeds fixed maximum"@,
                ),
                _ => answered(
                    SessionView { mail_from: Some(addr), ..s },
                    "250 2.1.0 Sender OK"@,
                ),
            },
        }
    }
}

/// RCPT.
pub open spec fn rcpt_turn(s: SessionView, arg: Seq<char>) -> Turn {
    let t = trimmed(arg);
    if s.mail_from is None {
        refused(s, "503 5.5.1 Need MAIL command first"@)
    } else if !has_keyword(t, "TO:"@) {
        refused(s, "501 5.5.4 Syntax: RCPT TO:<address>"@)
    } else {
        match address_of(t.skip(3)) {
            Some(addr) if addr.len() > 0 => if s.rcpt_to.len() >= MAX_RCPT {
                refused(s, "452 4.5.3 Too many recipients"@)
            } else {
                answered(
                    SessionView { rcpt_to: s.rcpt_to.push(addr), ..s },
                    "250 2.1.5 Recipient OK (message will be captured, never delivered)"@,
                )
            },
            _ => refused(s, "501 5.1.3 Bad recipient address syntax"@),
        }
    }
}

/// DATA.
pub open spec fn data_turn(s: SessionView) -> Turn {
    if s.mail_from is None || s.rcpt_to.len() == 0 {
        refused(s, "503 5.5.1 Need MAIL and RCPT first"@)
    } else if s.messages >= MAX_MESSAGES_PER_CONN {
        refused(s, "452 4.5.3 Too many messages in one connection"@)
    } else {
        asked(
            s,
            StageView::Data { body: Seq::empty(), oversize: false },
            "354 End data with <CR><LF>.<CR><LF>"@,
        )
    }
}

/// A line of a message as its author wrote it: the client puts a dot before a
/// line that begins with one.
pub open spec fn unstuffed(line: Seq<char>) -> Seq<char> {
    if line.len() > 0 && line[0] == '.' {
        line.skip(1)
    } else {
        line
    }
}

/// What has been received of a message: its bytes, and whether a line of it did
/// not fit.
#[verifier::ext_equal]
pub struct Received {
    pub body: Seq<u8>,
    pub oversize: bool,
}

/// One line more is received. A line that does not fit into `max` bytes is left
/// out.
pub open spec fn line_received(r: Received, line: Seq<char>, max: nat) -> Received {
    let content = encode_utf8(unstuffed(line));
    if r.body.len() + content.len() + 2 > max {
        Received { oversize: true, ..r }
    } else {
        Received { body: r.body + content + seq![13u8, 10u8], ..r }
    }
}

/// The message that the session has received, with all that is known of it.
pub open spec fn submission(s: SessionView, body: Seq<u8>) -> SubmissionView {
    SubmissionView {
        user_id: s.auth->0.user_id,
        cred_id: s.auth->0.cred_id,
        cred_username: s.auth->0.cred_username,
        mail_from: s.mail_from->0,
        rcpt_to: s.rcpt_to,
        raw: body,
        conn: ConnectionView {
            kind: s.kind,
            tls_version: s.tls_version,
            tls_cipher: s.tls_cipher,
            peer_addr: s.peer,
            helo: s.helo->0,
            esmtp: s.esmtp,
            auth_mechanism: s.auth->0.mechanism,
        },
    }
}

/// A line of a message, or the dot that ends it.
pub open spec fn data_line_turn(s: SessionView, r: Received, line: Seq<char>) -> Turn {
    if line == "."@ {
        if r.oversize {
            refused(without_transaction(s), "552 5.3.4 Message size exceeds fixed maximum"@)
        } else {
            Turn {
                session: SessionView { stage: StageView::Storing, ..without_transaction(s) },
                replies: Seq::empty(),
                next: NextView::Store(submission(s, r.body)),
            }
        }
    } else {
        let more = line_received(r, line, s.max_message_size);
        Turn {
            session: SessionView {
                stage: StageView::Data { body: more.body, oversize: more.oversize },
                ..s
            },
            replies: Seq::empty(),
            next: NextView::ReadLine,
        }
    }
}

/// The message is stored.
pub open spec fn stored_turn(s: SessionView, id: Seq<char>, expires_at: i64) -> Turn {
    answered(
        SessionView { messages: s.messages + 1nat, ..s },
        "250 2.0.0 OK: captured as "@ + id + " - it will vanish at "@ + time_text(expires_at)
            + " and is never delivered"@,
    )
}

/// QUIT.
pub open spec fn quit_turn(s: SessionView) -> Turn {
    Turn {
        session: SessionView { stage: StageView::Closed, ..s },
        replies: seq!["221 2.0.0 "@ + s.hostname + " closing connection"@],
        next: NextView::Close,
    }
}

/// A command line.
pub open spec fn command_turn(s: SessionView, line: Seq<char>) -> Turn {
    let verb = verb_of(line);
    let arg = argument_of(line);
    if verb == "HELO"@ {
        helo_turn(s, arg, false)
    } else if verb == "EHLO"@ {
        helo_turn(s, arg, true)
    } else if verb == "STARTTLS"@ {
        starttls_turn(s)
    } else if verb == "AUTH"@ {
        auth_turn(s, arg)
    } else if verb == "MAIL"@ {
        mail_turn(s, arg)
    } else if verb == "RCPT"@ {
        rcpt_turn(s, arg)
    } else if verb == "DATA"@ {
        data_turn(s)
    } else if verb == "RSET"@ {
        answered(without_transaction(s), "250 2.0.0 OK"@)
    } else if verb == "NOOP"@ {
        answered(s, "250 2.0.0 OK"@)
    } else if verb == "VRFY"@ {
        answered(s, "252 2.1.5 Cannot VRFY, but the void accepts everyone"@)
    } else if verb == "HELP"@ {
        answered(
            s,
            "214 2.0.0 This is SMTPVoid; messages are stored briefly and never delivered"@,
        )
    } else if verb == "QUIT"@ {
        quit_turn(s)
    } else if verb == ""@ {
        refused(s, "500 5.5.2 Empty command"@)
    } else {
        refused(s, "500 5.5.1 Command not recognized"@)
    }
}

/// A line from the client, whatever the session was waiting for.
pub open spec fn line_turn(s: SessionView, line: Seq<char>) -> Turn {
    match s.stage {
        StageView::AuthPlain => plain_turn(s, line),
        StageView::AuthLoginUser => login_user_turn(s, line),
        StageView::AuthLoginPass { username } => login_pass_turn(s, username, line),
        StageView::Data { body, oversize } => data_line_turn(s, Received { body, oversize }, line),
        _ => command_turn(s, line),
    }
}

/// A session on the plaintext listener, before anything was said.
pub open spec fn fresh_plain(hostname: Seq<char>, max: nat, peer: Seq<char>) -> SessionView {
    SessionView {
        hostname,
        max_message_size: max,
        peer,
        starttls: true,
        kind: ConnKind::Plaintext,
        tls_version: None,
        tls_cipher: None,
        helo: None,
        esmtp: false,
        auth: None,
        mail_from: None,
        rcpt_to: Seq::empty(),
        auth_failures: 0,
        errors: 0,
        messages: 0,
        stage: StageView::Command,
    }
}

/// A session on the implicit-TLS listener, before anything was said.
pub open spec fn fresh_tls(
    hostname: Seq<char>,
    max: nat,
    peer: Seq<char>,
    version: Option<Seq<char>>,
    cipher: Option<Seq<char>>,
) -> SessionView {
    SessionView {
        starttls: false,
        kind: ConnKind::ImplicitTls,
        tls_version: version,
        tls_cipher: cipher,
        ..fresh_plain(hostname, max, peer)
    }
}

// ---- the session at work ----

impl Session {
    /// A session on the plaintext listener, which offers STARTTLS.
    pub fn open_plain(hostname: String, max_message_size: usize, peer: String) -> (r: Self)
        ensures
            r@ == fresh_plain(hostname@, max_message_size as nat, peer@),
            r@.wf(),
    {
        Session {
            hostname,
            max_message_size,
            peer,
            starttls: true,
            kind: ConnKind::Plaintext,
            tls_version: None,
            tls_cipher: None,
            helo: None,
            esmtp: false,
            auth: None,
            mail_from: None,
            rcpt_to: Vec::new(),
            auth_failures: 0,
            errors: 0,
            messages: 0,
            stage: Stage::Command,
        }
    }

    /// A session on the implicit-TLS listener, once the handshake is done.
    pub fn open_tls(
        hostname: String,
        max_message_size: usize,
        peer: String,
        version: Option<String>,
        cipher: Option<String>,
    ) -> (r: Self)
        ensures
            r@ == fresh_tls(
                hostname@,
                max_message_size as nat,
                peer@,
                opt_text(version),
                opt_text(cipher),
            ),
            r@.wf(),
    {
        Session {
            starttls: false,
            kind: ConnKind::ImplicitTls,
            tls_version: version,
            tls_cipher: cipher,
            hostname,
            max_message_size,
            peer,
            helo: None,
            esmtp: false,
            auth: None,
            mail_from: None,
            rcpt_to: Vec::new(),
            auth_failures: 0,
            errors: 0,
            messages: 0,
            stage: Stage::Command,
        }
    }

    /// The line that greets the client.
    pub fn greeting(&self) -> (r: String)
        ensures
            r@ == "220 "@ + self@.hostname
                + " ESMTP SMTPVoid ready - test sink, nothing is ever delivered"@,
    {
        let mut out = "220 ".to_string();
        out.append(self.hostname.as_str());
        out.append(" ESMTP SMTPVoid ready - test sink, nothing is ever delivered");
        out
    }

    /// Ends a command.
    fn finish(&mut self, replies: Vec<String>) -> (r: Step)
        ensures
            turn_of(final(self)@, r) == finished(old(self)@, texts(replies@)),
    {
        let mut replies = replies;
        if self.errors >= MAX_ERRORS {
            self.stage = Stage::Closed;
            replies.push("421 4.7.0 Too many errors, closing connection".to_string());
            Step { replies, next: Next::Close }
        } else if self.auth_failures >= MAX_AUTH_FAILURES {
            self.stage = Stage::Closed;
            replies.push(
                "421 4.7.0 Too many authentication failures, closing connection".to_string(),
            );
            Step { replies, next: Next::Close }
        } else {
            self.stage = Stage::Command;
            Step { replies, next: Next::ReadLine }
        }
    }

    fn answer(&mut self, reply: &str) -> (r: Step)
        ensures
            turn_of(final(self)@, r) == answered(old(self)@, reply@),
    {
        let mut replies: Vec<String> = Vec::new();
        replies.push(reply.to_string());
        assert(texts(replies@) =~= seq![reply@]);
        self.finish(replies)
    }

    fn syntax_error(&mut self, reply: &str) -> (r: Step)
        requires
            old(self)@.errors < MAX_ERRORS,
        ensures
            turn_of(final(self)@, r) == refused(old(self)@, reply@),
    {
        self.errors = self.errors + 1;
        assert(self@ =~= SessionView { errors: old(self)@.errors + 1nat, ..old(self)@ });
        self.answer(reply)
    }

    fn auth_failed(&mut self, reply: &str) -> (r: Step)
        requires
            old(self)@.errors < MAX_ERRORS,
            old(self)@.auth_failures < MAX_AUTH_FAILURES,
        ensures
            turn_of(final(self)@, r) == auth_refused(old(self)@, reply@),
    {
        self.auth_failures = self.auth_failures + 1;
        assert(self@ =~= SessionView {
            auth_failures: old(self)@.auth_failures + 1nat,
            ..old(self)@
        });
        self.syntax_error(reply)
    }

    fn ask(&mut self, stage: Stage, reply: &str) -> (r: Step)
        ensures
            turn_of(final(self)@, r) == asked(old(self)@, stage.text(), reply@),
    {
        self.stage = stage;
        let mut replies: Vec<String> = Vec::new();
        replies.push(reply.to_string());
        assert(texts(replies@) =~= seq![reply@]);
        Step { replies, next: Next::ReadLine }
    }

    fn reset_transaction(&mut self)
        ensures
            final(self)@ == without_transaction(old(self)@),
    {
        self.mail_from = None;
        self.rcpt_to.clear();
        assert(self@.rcpt_to =~= Seq::empty());
    }

    fn cmd_helo(&mut self, arg: &str, esmtp: bool) -> (r: Step)
        requires
            old(self)@.wf(),
            old(self)@.stage is Command,
        ensures
            turn_of(final(self)@, r) == helo_turn(old(self)@, arg@, esmtp),
    {
        let name = trim(arg);
        if name.as_str().is_empty() {
            return self.syntax_error("501 5.5.4 Hostname required");
        }
        self.helo = Some(name.clone());
        self.esmtp = esmtp;
        self.reset_transaction();
        assert(self@ =~= SessionView {
            helo: Some(name@),
            esmtp,
            ..without_transaction(old(self)@)
        });
        if !esmtp {
            let mut line = "250 ".to_string();
            line.append(self.hostname.as_str());
            line.append(" greets ");
            line.append(name.as_str());
            return self.answer(line.as_str());
        }
        let mut replies: Vec<String> = Vec::new();
        let mut first = "250-".to_string();
        first.append(self.hostname.as_str());
        first.append(" greets ");
        first.append(name.as_str());
        replies.push(first);
        replies.push("250-8BITMIME".to_string());
        let mut size = "250-SIZE ".to_string();
        size.append(show_usize(self.max_message_size).as_str());
        replies.push(size);
        if self.starttls {
            replies.push("250-STARTTLS".to_string());
        }
        replies.push("250-AUTH PLAIN LOGIN".to_string());
        replies.push("250 ENHANCEDSTATUSCODES".to_string());
        assert(texts(replies@) =~= ehlo_replies(old(self)@, name@));
        self.finish(replies)
    }

    fn cmd_starttls(&mut self) -> (r: Step)
        requires
            old(self)@.wf(),
            old(self)@.stage is Command,
        ensures
            turn_of(final(self)@, r) == starttls_turn(old(self)@),
    {
        if !self.starttls {
            return self.syntax_error("454 4.7.0 TLS not available");
        }
        self.starttls = false;
        self.stage = Stage::Handshake;
        let mut replies: Vec<String> = Vec::new();
        replies.push("220 2.0.0 Ready to start TLS".to_string());
        assert(texts(replies@) =~= seq!["220 2.0.0 Ready to start TLS"@]);
        Step { replies, next: Next::StartTls }
    }

    /// The TLS handshake succeeded, with these parameters.
    pub fn tls_established(&mut self, version: Option<String>, cipher: Option<String>) -> (r: Step)
        requires
            old(self)@.wf(),
            old(self)@.stage is Handshake,
        ensures
            turn_of(final(self)@, r) == tls_turn(old(self)@, opt_text(version), opt_text(cipher)),
            final(self)@.wf(),
    {
        self.kind = ConnKind::StartTls;
        self.tls_version = version;
        self.tls_cipher = cipher;
        self.helo = None;
        self.esmtp = false;
        self.auth = None;
        self.reset_transaction();
        let replies: Vec<String> = Vec::new();
        assert(texts(replies@) =~= Seq::empty());
        self.finish(replies)
    }

    fn look_up(&mut self, username: String, password: String, mechanism: &str) -> (r: Step)
        ensures
            turn_of(final(self)@, r) == lookup_turn(
                old(self)@,
                username@,
                password@,
                mechanism@,
            ),
    {
        self.stage = Stage::AuthLookup { password, mechanism: mechanism.to_string() };
        let replies: Vec<String> = Vec::new();
        assert(texts(replies@) =~= Seq::empty());
        Step { replies, next: Next::LookupCredential { username } }
    }

    fn auth_plain(&mut self, payload: &str) -> (r: Step)
        requires
            old(self)@.wf(),
            old(self)@.stage !is Closed,
        ensures
            turn_of(final(self)@, r) == plain_turn(old(self)@, payload@),
    {
        if same(payload, "*") {
            return self.syntax_error("501 5.7.0 Authentication aborted");
        }
        let trimmed_payload = trim(payload);
        match decode_base64(trimmed_payload.as_str()) {
            None => self.auth_failed("501 5.5.2 Invalid base64"),
            Some(decoded) => match split_plain(decoded.as_slice()) {
                None => self.auth_failed("501 5.5.2 Malformed AUTH PLAIN payload"),
                Some((username, password)) => self.look_up(username, password, "PLAIN"),
            },
        }
    }

    fn auth_login_user(&mut self, username: &str) -> (r: Step)
        requires
            old(self)@.wf(),
            old(self)@.stage !is Closed,
        ensures
            turn_of(final(self)@, r) == login_user_turn(old(self)@, username@),
    {
        let trimmed_name = trim(username);
        if same(trimmed_name.as_str(), "*") {
            return self.syntax_error("501 5.7.0 Authentication aborted");
        }
        self.ask(Stage::AuthLoginPass { username: username.to_string() }, "334 UGFzc3dvcmQ6")
    }

    fn auth_login_pass(&mut self, username: &str, password: &str) -> (r: Step)
        requires
            old(self)@.wf(),
            old(self)@.stage !is Closed,
        ensures
            turn_of(final(self)@, r) == login_pass_turn(old(self)@, username@, password@),
    {
        let u = trim(username);
        let p = trim(password);
        if same(p.as_str(), "*") {
            return self.syntax_error("501 5.7.0 Authentication aborted");
        }
        match (decode_base64(u.as_str()), decode_base64(p.as_str())) {
            (Some(ub), Some(pb)) => {
                let user = from_utf8_lossy(ub.as_slice());
                let pass = from_utf8_lossy(pb.as_slice());
                self.look_up(user, pass, "LOGIN")
            },
            _ => self.auth_failed("501 5.5.2 Invalid base64"),
        }
    }

    fn cmd_auth(&mut self, arg: &str) -> (r: Step)
        requires
            old(self)@.wf(),
            old(self)@.stage is Command,
        ensures
            turn_of(final(self)@, r) == auth_turn(old(self)@, arg@),
    {
        if self.auth.is_some() {
            return self.syntax_error("503 5.5.1 Already authenticated");
        }
        let t = trim(arg);
        let cs = chars_of(t.as_str());
        let i = find_char(&cs, ' ');
        let mech = text_range(&cs, 0, i);
        assert(cs@.subrange(0, i as int) =~= cs@.take(i as int));
        let mechanism = to_uppercase(mech.as_str());
        let initial = if i < cs.len() {
            let rest = text_range(&cs, i + 1, cs.len());
            assert(cs@.subrange(i + 1, cs@.len() as int) =~= cs@.skip(i + 1));
            trim(rest.as_str())
        } else {
            String::new()
        };
        if same(mechanism.as_str(), "PLAIN") {
            if initial.as_str().is_empty() {
                self.ask(Stage::AuthPlain, "334 ")
            } else {
                self.auth_plain(initial.as_str())
            }
        } else if same(mechanism.as_str(), "LOGIN") {
            if initial.as_str().is_empty() {
                self.ask(Stage::AuthLoginUser, "334 VXNlcm5hbWU6")
            } else {
                self.auth_login_user(initial.as_str())
            }
        } else {
            self.syntax_error("504 5.5.4 Unrecognized authentication type")
        }
    }

    /// The credential that the client named was looked up.
    pub fn credential_looked_up(&mut self, cred: Option<CredAuth>) -> (r: Step)
        requires
            old(self)@.wf(),
            old(self)@.stage is AuthLookup,
        ensures
            turn_of(final(self)@, r) == credential_turn(
                old(self)@,
                match cred {
                    Some(c) => Some(c@),
                    None => None,
                },
            ),
            final(self)@.wf(),
    {
        let mut stage = Stage::Command;
        std::mem::swap(&mut self.stage, &mut stage);
        match stage {
            Stage::AuthLookup { password, mechanism } => {
                if let Some(c) = cred {
                    if same(c.password.as_str(), password.as_str()) {
                        self.auth = Some(
                            AuthedAs {
                                cred_id: c.id,
                                user_id: c.user_id,
                                cred_username: c.username,
                                mechanism,
                            },
                        );
                        return self.answer("235 2.7.0 Authentication successful");
                    }
                }
            },
            _ => {},
        }
        self.auth_failed("535 5.7.8 Authentication credentials invalid")
    }

    fn cmd_mail(&mut self, arg: &str) -> (r: Step)
        requires
            old(self)@.wf(),
            old(self)@.stage is Command,
        ensures
            turn_of(final(self)@, r) == mail_turn(old(self)@, arg@),
    {
        if self.helo.is_none() {
            return self.syntax_error("503 5.5.1 Send HELO/EHLO first");
        }
        if self.auth.is_none() {
            return self.syntax_error(
                "530 5.7.0 Authentication required (create SMTP credentials in the web UI)",
            );
        }
        if self.mail_from.is_some() {
            return self.syntax_error("503 5.5.1 Nested MAIL command");
        }
        let t = trim(arg);
        if !starts_with_keyword(t.as_str(), "FROM:") {
            return self.syntax_error("501 5.5.4 Syntax: MAIL FROM:<address>");
        }
        proof {
            reveal_strlit("FROM:");
        }
        let rest = skip_chars(t.as_str(), 5);
        match extract_angle_addr(rest.as_str()) {
            None => self.syntax_error("501 5.1.7 Bad sender address syntax"),
            Some(addr) => {
                if let Some(size) = size_parameter(rest.as_str()) {
                    if size > self.max_message_size {
                        return self.syntax_error("552 5.3.4 Message size exceeds fixed maximum");
                    }
                }
                self.mail_from = Some(addr);
                self.answer("250 2.1.0 Sender OK")
            },
        }
    }

    fn cmd_rcpt(&mut self, arg: &str) -> (r: Step)
        requires
            old(self)@.wf(),
            old(self)@.stage is Command,
        ensures
            turn_of(final(self)@, r) == rcpt_turn(old(self)@, arg@),
    {
        if self.mail_from.is_none() {
            return self.syntax_error("503 5.5.1 Need MAIL command first");
        }
        let t = trim(arg);
        if !starts_with_keyword(t.as_str(), "TO:") {
            return self.syntax_error("501 5.5.4 Syntax: RCPT TO:<address>");
        }
        proof {
            reveal_strlit("TO:");
        }
        let rest = skip_chars(t.as_str(), 3);
        match extract_angle_addr(rest.as_str()) {
            Some(addr) => {
                if addr.as_str().is_empty() {
                    return self.syntax_error("501 5.1.3 Bad recipient address syntax");
                }
                if self.rcpt_to.len() >= MAX_RCPT {
                    return self.syntax_error("452 4.5.3 Too many recipients");
                }
                self.rcpt_to.push(addr);
                assert(self@.rcpt_to =~= old(self)@.rcpt_to.push(addr@));
                self.answer(
                    "250 2.1.5 Recipient OK (message will be captured, never delivered)",
                )
            },
            None => self.syntax_error("501 5.1.3 Bad recipient address syntax"),
        }
    }

    fn cmd_data(&mut self) -> (r: Step)
        requires
            old(self)@.wf(),
            old(self)@.stage is Command,
        ensures
            turn_of(final(self)@, r) == data_turn(old(self)@),
    {
        if self.mail_from.is_none() || self.rcpt_to.len() == 0 {
            return self.syntax_error("503 5.5.1 Need MAIL and RCPT first");
        }
        if self.messages >= MAX_MESSAGES_PER_CONN {
            return self.syntax_error("452 4.5.3 Too many messages in one connection");
        }
        let body: Vec<u8> = Vec::new();
        self.ask(Stage::Data { body, oversize: false }, "354 End data with <CR><LF>.<CR><LF>")
    }
}

impl Session {
    /// The message that the session has received, with all that is known of it.
    fn take_submission(&mut self, body: Vec<u8>) -> (r: Submission)
        requires
            old(self)@.auth is Some,
            old(self)@.mail_from is Some,
            old(self)@.helo is Some,
        ensures
            r@ == submission(old(self)@, body@),
            final(self)@ == without_transaction(old(self)@),
    {
        let mut mail_from: Option<String> = None;
        std::mem::swap(&mut self.mail_from, &mut mail_from);
        let mut rcpt_to: Vec<String> = Vec::new();
        std::mem::swap(&mut self.rcpt_to, &mut rcpt_to);
        assert(self@.rcpt_to =~= Seq::empty());
        let helo = copy_opt(&self.helo);
        let conn_version = copy_opt(&self.tls_version);
        let conn_cipher = copy_opt(&self.tls_cipher);
        let auth = self.auth.as_ref().unwrap();
        Submission {
            user_id: auth.user_id,
            cred_id: auth.cred_id,
            cred_username: auth.cred_username.clone(),
            mail_from: mail_from.unwrap(),
            rcpt_to,
            raw: body,
            conn: ConnectionInfo {
                kind: self.kind,
                tls_version: conn_version,
                tls_cipher: conn_cipher,
                peer_addr: self.peer.clone(),
                helo: helo.unwrap(),
                esmtp: self.esmtp,
                auth_mechanism: auth.mechanism.clone(),
            },
        }
    }

    fn data_line(&mut self, body: Vec<u8>, oversize: bool, line: &str) -> (r: Step)
        requires
            old(self)@.wf(),
            old(self)@.stage is Command,
            old(self)@.mail_from is Some,
            body@.len() <= old(self)@.max_message_size,
        ensures
            turn_of(final(self)@, r) == data_line_turn(
                old(self)@,
                Received { body: body@, oversize },
                line@,
            ),
    {
        let replies: Vec<String> = Vec::new();
        assert(texts(replies@) =~= Seq::empty());
        if same(line, ".") {
            if oversize {
                self.reset_transaction();
                return self.syntax_error("552 5.3.4 Message size exceeds fixed maximum");
            }
            let message = self.take_submission(body);
            self.stage = Stage::Storing;
            return Step { replies, next: Next::Store(message) };
        }
        proof {
            reveal_strlit(".");
        }
        let content = if starts_with(line, ".") {
            skip_chars(line, 1)
        } else {
            line.to_string()
        };
        assert(content@ == unstuffed(line@)) by {
            if line@.len() > 0 {
                assert(line@.subrange(0, 1)[0] == line@[0]);
                if line@[0] == '.' {
                    assert("."@ =~= line@.subrange(0, 1));
                }
            }
        }
        let room = self.max_message_size - body.len();
        let size = bytes_in(content.as_str());
        if room < 2 || size > room - 2 {
            self.stage = Stage::Data { body, oversize: true };
        } else {
            let mut body = body;
            append_bytes(&mut body, content.as_str().as_bytes());
            body.push(13);
            body.push(10);
            assert(body@ =~= line_received(
                Received { body: body@.take(body@.len() - size - 2), oversize },
                line@,
                self@.max_message_size,
            ).body);
            self.stage = Stage::Data { body, oversize };
        }
        Step { replies, next: Next::ReadLine }
    }

    fn command(&mut self, line: &str) -> (r: Step)
        requires
            old(self)@.wf(),
            old(self)@.stage is Command,
        ensures
            turn_of(final(self)@, r) == command_turn(old(self)@, line@),
    {
        let (verb, arg) = split_command(line);
        let verb = verb.as_str();
        let arg = arg.as_str();
        if same(verb, "HELO") {
            self.cmd_helo(arg, false)
        } else if same(verb, "EHLO") {
            self.cmd_helo(arg, true)
        } else if same(verb, "STARTTLS") {
            self.cmd_starttls()
        } else if same(verb, "AUTH") {
            self.cmd_auth(arg)
        } else if same(verb, "MAIL") {
            self.cmd_mail(arg)
        } else if same(verb, "RCPT") {
            self.cmd_rcpt(arg)
        } else if same(verb, "DATA") {
            self.cmd_data()
        } else if same(verb, "RSET") {
            self.reset_transaction();
            self.answer("250 2.0.0 OK")
        } else if same(verb, "NOOP") {
            self.answer("250 2.0.0 OK")
        } else if same(verb, "VRFY") {
            self.answer("252 2.1.5 Cannot VRFY, but the void accepts everyone")
        } else if same(verb, "HELP") {
            self.answer(
                "214 2.0.0 This is SMTPVoid; messages are stored briefly and never delivered",
            )
        } else if same(verb, "QUIT") {
            let mut bye = "221 2.0.0 ".to_string();
            bye.append(self.hostname.as_str());
            bye.append(" closing connection");
            let mut replies: Vec<String> = Vec::new();
            replies.push(bye);
            assert(texts(replies@) =~= seq![bye@]);
            self.stage = Stage::Closed;
            Step { replies, next: Next::Close }
        } else if same(verb, "") {
            self.syntax_error("500 5.5.2 Empty command")
        } else {
            self.syntax_error("500 5.5.1 Command not recognized")
        }
    }

    /// Answers a line from the client.
    pub fn on_line(&mut self, line: &str) -> (r: Step)
        requires
            old(self)@.wf(),
            old(self)@.stage.reads_line(),
        ensures
            turn_of(final(self)@, r) == line_turn(old(self)@, line@),
            final(self)@.wf(),
    {
        proof {
            every_line_keeps_the_session_sound(old(self)@, line@);
        }
        let mut stage = Stage::Command;
        std::mem::swap(&mut self.stage, &mut stage);
        assert(self@ =~= SessionView { stage: StageView::Command, ..old(self)@ });
        match stage {
            Stage::AuthPlain => self.auth_plain(line),
            Stage::AuthLoginUser => self.auth_login_user(line),
            Stage::AuthLoginPass { username } => self.auth_login_pass(username.as_str(), line),
            Stage::Data { body, oversize } => self.data_line(body, oversize, line),
            _ => self.command(line),
        }
    }

    /// The message was stored under `id`, and will vanish at `expires_at`.
    pub fn message_stored(&mut self, id: &str, expires_at: i64) -> (r: Step)
        requires
            old(self)@.wf(),
            old(self)@.stage is Storing,
        ensures
            turn_of(final(self)@, r) == stored_turn(old(self)@, id@, expires_at),
            final(self)@.wf(),
    {
        self.messages = self.messages + 1;
        let mut line = "250 2.0.0 OK: captured as ".to_string();
        line.append(id);
        line.append(" - it will vanish at ");
        line.append(fmt_ts(expires_at).as_str());
        line.append(" and is never delivered");
        self.answer(line.as_str())
    }
}

// ---- what holds of every session ----

proof fn lemma_auth_sound(s: SessionView, arg: Seq<char>, username: Seq<char>)
    requires
        s.wf(),
        s.stage !is Closed,
        s.auth is None,
    ensures
        plain_turn(s, arg).session.wf(),
        login_user_turn(s, arg).session.wf(),
        login_pass_turn(s, username, arg).session.wf(),
{
}

proof fn lemma_auth_command_sound(s: SessionView, arg: Seq<char>)
    requires
        s.wf(),
        s.stage is Command,
    ensures
        auth_turn(s, arg).session.wf(),
{
    if s.auth is None {
        let t = trimmed(arg);
        let i = index_of(t, ' ');
        if i < t.len() {
            lemma_auth_sound(s, trimmed(t.skip(i + 1)), Seq::empty());
        }
    }
}

proof fn lemma_transaction_sound(s: SessionView, arg: Seq<char>)
    requires
        s.wf(),
        s.stage is Command,
    ensures
        mail_turn(s, arg).session.wf(),
        rcpt_turn(s, arg).session.wf(),
        data_turn(s).session.wf(),
{
}

proof fn lemma_greeting_sound(s: SessionView, arg: Seq<char>)
    requires
        s.wf(),
        s.stage is Command,
    ensures
        helo_turn(s, arg, true).session.wf(),
        helo_turn(s, arg, false).session.wf(),
        starttls_turn(s).session.wf(),
        answered(without_transaction(s), "250 2.0.0 OK"@).session.wf(),
        quit_turn(s).session.wf(),
{
}

proof fn lemma_data_sound(s: SessionView, r: Received, line: Seq<char>)
    requires
        s.wf(),
        s.stage is Data,
        r.body.len() <= s.max_message_size,
    ensures
        data_line_turn(s, r, line).session.wf(),
{
}

proof fn lemma_command_sound(s: SessionView, line: Seq<char>)
    requires
        s.wf(),
        s.stage is Command,
    ensures
        command_turn(s, line).session.wf(),
{
    let arg = argument_of(line);
    lemma_greeting_sound(s, arg);
    lemma_auth_command_sound(s, arg);
    lemma_transaction_sound(s, arg);
}

/// Whatever the client sends, the counters stay within their limits, mail is
/// only in progress for a client that has said hello and authenticated, and a
/// message never outgrows the maximum size.
pub proof fn every_line_keeps_the_session_sound(s: SessionView, line: Seq<char>)
    requires
        s.wf(),
        s.stage.reads_line(),
    ensures
        line_turn(s, line).session.wf(),
{
    match s.stage {
        StageView::AuthLoginPass { username } => lemma_auth_sound(s, line, username),
        StageView::Data { body, oversize } => lemma_data_sound(
            s,
            Received { body, oversize },
            line,
        ),
        StageView::Command => lemma_command_sound(s, line),
        _ => lemma_auth_sound(s, line, Seq::empty()),
    }
}

} // verus!
