//! A session together with the bytes that its client has sent.

use vstd::prelude::*;

use crate::db::CredAuth;
use crate::smtp::line::{after_line, has_line, line_bytes, LineBuffer, LineEvent, MAX_LINE};
use crate::smtp::session::{
    credential_turn, line_turn, stored_turn, tls_turn, turn_of, Session, SessionView, Step,
};
use crate::text::{lossy, opt_text};

verus! {

/// A session, and what its client has sent that was not answered yet.
pub struct Connection {
    lines: LineBuffer,
    session: Session,
}

/// The state of a [`Connection`].
#[verifier::ext_equal]
pub struct ConnectionState {
    pub pending: Seq<u8>,
    pub session: SessionView,
}

impl View for Connection {
    type V = ConnectionState;

    closed spec fn view(&self) -> ConnectionState {
        ConnectionState { pending: self.lines@, session: self.session@ }
    }
}

/// What comes of the bytes that have been received.
pub enum Progress {
    /// A line was complete, and this is the answer to it.
    Answered(Step),
    /// More bytes have to be read.
    NeedMore,
    /// The client's line is too long: the connection has to be dropped.
    TooLong,
}

impl Connection {
    /// A connection from which nothing was read yet.
    pub fn new(session: Session) -> (r: Self)
        ensures
            r@ == (ConnectionState { pending: Seq::empty(), session: session@ }),
    {
        Connection { lines: LineBuffer::new(), session }
    }

    /// The line that greets the client.
    pub fn greeting(&self) -> (r: String)
        ensures
            r@ == "220 "@ + self@.session.hostname
                + " ESMTP SMTPVoid ready - test sink, nothing is ever delivered"@,
    {
        self.session.greeting()
    }

    /// Takes in what was read from the client.
    pub fn receive(&mut self, chunk: &[u8])
        ensures
            final(self)@ == (ConnectionState {
                pending: old(self)@.pending + chunk@,
                session: old(self)@.session,
            }),
    {
        self.lines.extend(chunk);
    }

    /// Answers the next line, if there is one.
    pub fn advance(&mut self) -> (r: Progress)
        requires
            old(self)@.session.wf(),
            old(self)@.session.stage.reads_line(),
        ensures
            final(self)@.session.wf(),
            has_line(old(self)@.pending) ==> {
                &&& r is Answered
                &&& turn_of(final(self)@.session, r->Answered_0) == line_turn(
                    old(self)@.session,
                    lossy(line_bytes(old(self)@.pending)),
                )
                &&& final(self)@.pending == after_line(old(self)@.pending)
            },
            !has_line(old(self)@.pending) ==> {
                &&& r == (if old(self)@.pending.len() > MAX_LINE {
                    Progress::TooLong
                } else {
                    Progress::NeedMore
                })
                &&& final(self)@ == old(self)@
            },
    {
        match self.lines.read_line() {
            LineEvent::Line(line) => Progress::Answered(self.session.on_line(line.as_str())),
            LineEvent::NeedMore => Progress::NeedMore,
            LineEvent::TooLong => Progress::TooLong,
        }
    }

    /// The TLS handshake succeeded, with these parameters. What the client sent
    /// in plaintext before it is discarded.
    pub fn tls_established(&mut self, version: Option<String>, cipher: Option<String>) -> (r: Step)
        requires
            old(self)@.session.wf(),
            old(self)@.session.stage is Handshake,
        ensures
            turn_of(final(self)@.session, r) == tls_turn(
                old(self)@.session,
                opt_text(version),
                opt_text(cipher),
            ),
            final(self)@.pending == Seq::<u8>::empty(),
            final(self)@.session.wf(),
    {
        self.lines.upgrade();
        self.session.tls_established(version, cipher)
    }

    /// The credential that the client named was looked up.
    pub fn credential_looked_up(&mut self, cred: Option<CredAuth>) -> (r: Step)
        requires
            old(self)@.session.wf(),
            old(self)@.session.stage is AuthLookup,
        ensures
            turn_of(final(self)@.session, r) == credential_turn(
                old(self)@.session,
                match cred {
                    Some(c) => Some(c@),
                    None => None,
                },
            ),
            final(self)@.pending == old(self)@.pending,
            final(self)@.session.wf(),
    {
        self.session.credential_looked_up(cred)
    }

    /// The message was stored under `id`, and will vanish at `expires_at`.
    pub fn message_stored(&mut self, id: &str, expires_at: i64) -> (r: Step)
        requires
            old(self)@.session.wf(),
            old(self)@.session.stage is Storing,
        ensures
            turn_of(final(self)@.session, r) == stored_turn(old(self)@.session, id@, expires_at),
            final(self)@.pending == old(self)@.pending,
            final(self)@.session.wf(),
    {
        self.session.message_stored(id, expires_at)
    }
}

} // verus!
