//! A small read-only API over the virtual mailbox, meant for end-to-end tests:
//! send a message through SMTP, then poll for the newest one until the assertion
//! holds. Every request authenticates with the per-account token that the
//! dashboard shows.
//!
//! Nothing here can change a mailbox; the API only reads. Deleting mail stays a
//! session-authenticated action in the web UI.

use std::sync::Arc;

use vstd::prelude::*;
use vstd::string::*;

use crate::config::now_unix;
use crate::db::User;
use crate::mailstore::{found, live, mailbox, EmailView, MailStore, StoredEmail};
use crate::mime::{
    attachment_views, attachments_of, html_parts_of, parses, part_texts, read_attachments,
    read_parts, text_parts_of, AttachmentPart, AttachmentPartView, Part, Parts,
};
use crate::random::{is_token, random_token};
use crate::text::{
    ascii_lower, chars_of, contains_text, copy_list, copy_opt, find_char, from_utf8_lossy,
    index_of, lossy, occurs, opt_str, opt_text, same, skip_chars, split_at_text, split_text,
    text_range, texts, to_ascii_lowercase, to_lowercase, trim, trimmed, unicode_lower,
};
use crate::web::mail_view::{header_block, headers_of};

verus! {

/// Header carrying the token when `Authorization: Bearer` is inconvenient.
pub const TOKEN_HEADER: &'static str = "x-api-token";

/// What every mail API token starts with.
pub const TOKEN_PREFIX: &'static str = "svapi_";

/// The number of random characters in a mail API token.
pub const TOKEN_LENGTH: usize = 40;

/// An answer that carries no message: an HTTP status and what went wrong.
#[derive(Debug, Clone, Copy)]
pub struct Failure {
    pub status: u16,
    pub error: &'static str,
}

// ---- authentication ----

/// The token in the text of an `Authorization` header, if its scheme is `Bearer`
/// in any mixture of cases.
pub open spec fn bearer_token(raw: Seq<char>) -> Option<Seq<char>> {
    let t = trimmed(raw);
    if t.len() > 7 && ascii_lower(t.take(7)) == "bearer "@ {
        Some(trimmed(t.skip(7)))
    } else {
        None
    }
}

/// The token that a request presents: the bearer token, or else the text of the
/// token header, unless that is blank.
pub open spec fn token_of(
    authorization: Option<Seq<char>>,
    token_header: Option<Seq<char>>,
) -> Option<Seq<char>> {
    match authorization {
        Some(a) if bearer_token(a) is Some => bearer_token(a),
        _ => match token_header {
            Some(h) if trimmed(h).len() > 0 => Some(trimmed(h)),
            _ => None,
        },
    }
}

fn read_bearer(raw: &str) -> (r: Option<String>)
    ensures
        opt_text(r) == bearer_token(raw@),
{
    let raw = trim(raw);
    let cs = chars_of(raw.as_str());
    if cs.len() <= 7 {
        return None;
    }
    let scheme = text_range(&cs, 0, 7);
    assert(scheme@ =~= raw@.take(7));
    if same(to_ascii_lowercase(scheme.as_str()).as_str(), "bearer ") {
        Some(trim(skip_chars(raw.as_str(), 7).as_str()))
    } else {
        None
    }
}

/// The token that a request presents, from the texts of its `Authorization`
/// header and of its token header.
pub fn presented_token(authorization: Option<&str>, token_header: Option<&str>) -> (r: Option<
    String,
>)
    ensures
        opt_text(r) == token_of(opt_str(authorization), opt_str(token_header)),
{
    if let Some(raw) = authorization {
        let token = read_bearer(raw);
        if token.is_some() {
            return token;
        }
    }
    match token_header {
        Some(raw) => {
            let token = trim(raw);
            if token.as_str().is_empty() {
                None
            } else {
                Some(token)
            }
        },
        None => None,
    }
}

pub const MISSING_TOKEN: &'static str = "missing API token: send it as 'Authorization: Bearer <token>' or 'X-API-Token: <token>'";

/// The token to look up, or the answer to a request that presents none.
pub fn require_token(authorization: Option<&str>, token_header: Option<&str>) -> (r: Result<
    String,
    Failure,
>)
    ensures
        match token_of(opt_str(authorization), opt_str(token_header)) {
            Some(t) => r is Ok && r->Ok_0@ == t,
            None => r is Err && r->Err_0.status == 401 && r->Err_0.error@ == MISSING_TOKEN@,
        },
{
    match presented_token(authorization, token_header) {
        Some(t) => Ok(t),
        None => Err(Failure { status: 401, error: MISSING_TOKEN }),
    }
}

/// The holder of a token, or the answer to send instead, given what the database
/// said of it.
pub fn token_holder(lookup: Result<Option<User>, String>) -> (r: Result<User, Failure>)
    ensures
        match lookup {
            Ok(Some(user)) => r == Ok::<User, Failure>(user),
            Ok(None) => r is Err && r->Err_0.status == 401 && r->Err_0.error@
                == "unknown API token"@,
            Err(_) => r is Err && r->Err_0.status == 500 && r->Err_0.error@
                == "token lookup failed"@,
        },
{
    match lookup {
        Ok(Some(user)) => Ok(user),
        Ok(None) => Err(Failure { status: 401, error: "unknown API token" }),
        Err(_) => Err(Failure { status: 500, error: "token lookup failed" }),
    }
}

/// Whether `s` has the shape of a mail API token.
pub open spec fn is_api_token(s: Seq<char>) -> bool {
    &&& TOKEN_PREFIX@.is_prefix_of(s)
    &&& is_token(s.skip(TOKEN_PREFIX@.len() as int), TOKEN_LENGTH as nat)
}

/// A new mail API token.
pub fn new_api_token() -> (r: String)
    ensures
        is_api_token(r@),
{
    let mut out = TOKEN_PREFIX.to_string();
    let secret = random_token(TOKEN_LENGTH);
    out.append(secret.as_str());
    assert(out@.skip(TOKEN_PREFIX@.len() as int) =~= secret@);
    out
}

// ---- filtering ----

/// Every filter is an optional case-insensitive substring match, so a test can
/// wait for its own message without knowing anything else about the mailbox.
#[derive(Debug, Clone)]
pub struct Filter {
    /// Matches any envelope recipient.
    pub to: Option<String>,
    /// Matches the envelope sender or the From header.
    pub from: Option<String>,
    pub subject: Option<String>,
    /// Only meaningful for a listing; the newest N messages are returned.
    pub limit: Option<usize>,
}

/// Whether `needle` occurs in `hay`, whatever the case of either.
pub open spec fn mentions(hay: Seq<char>, needle: Seq<char>) -> bool {
    occurs(unicode_lower(needle), unicode_lower(hay))
}

pub fn contains(haystack: &str, needle: &str) -> (r: bool)
    ensures
        r == mentions(haystack@, needle@),
{
    contains_text(to_lowercase(haystack).as_str(), to_lowercase(needle).as_str())
}

impl Default for Filter {
    /// The filter that matches everything.
    fn default() -> (r: Self)
        ensures
            r.to is None && r.from is None && r.subject is None && r.limit is None,
    {
        Filter { to: None, from: None, subject: None, limit: None }
    }
}

/// Whether `needle` occurs in one of the texts, whatever the case.
pub open spec fn one_mentions(list: Seq<Seq<char>>, needle: Seq<char>) -> bool {
    exists|i: int| 0 <= i < list.len() && mentions(#[trigger] list[i], needle)
}

fn any_mentions(list: &Vec<String>, needle: &str) -> (r: bool)
    ensures
        r == one_mentions(texts(list@), needle@),
{
    let mut i: usize = 0;
    while i < list.len()
        invariant
            i <= list@.len(),
            forall|j: int| 0 <= j < i ==> !mentions(#[trigger] texts(list@)[j], needle@),
        decreases list@.len() - i,
    {
        assert(texts(list@)[i as int] == list@[i as int]@);
        if contains(list[i].as_str(), needle) {
            return true;
        }
        i += 1;
    }
    false
}

impl Filter {
    /// Whether a message passes the filter.
    pub open spec fn accepts(&self, e: EmailView) -> bool {
        &&& match self.to {
            Some(to) => one_mentions(e.rcpt_to, to@),
            None => true,
        }
        &&& match self.from {
            Some(from) => mentions(e.mail_from, from@) || mentions(e.from_header, from@),
            None => true,
        }
        &&& match self.subject {
            Some(subject) => mentions(e.subject, subject@),
            None => true,
        }
    }

    pub fn matches(&self, e: &StoredEmail) -> (r: bool)
        ensures
            r == self.accepts(e@),
    {
        if let Some(to) = &self.to {
            if !any_mentions(&e.rcpt_to, to.as_str()) {
                return false;
            }
        }
        if let Some(from) = &self.from {
            if !contains(e.mail_from.as_str(), from.as_str()) && !contains(
                e.from_header.as_str(),
                from.as_str(),
            ) {
                return false;
            }
        }
        if let Some(subject) = &self.subject {
            if !contains(e.subject.as_str(), subject.as_str()) {
                return false;
            }
        }
        true
    }
}

// ---- headers ----

/// A header: its name and its value, unfolded.
#[derive(Debug, Clone)]
pub struct Header {
    pub name: String,
    pub value: String,
}

impl View for Header {
    type V = (Seq<char>, Seq<char>);

    open spec fn view(&self) -> (Seq<char>, Seq<char>) {
        (self.name@, self.value@)
    }
}

pub open spec fn header_views(list: Seq<Header>) -> Seq<(Seq<char>, Seq<char>)> {
    list.map_values(|h: Header| h@)
}

/// Whether a line continues the header above it.
pub open spec fn is_folded(line: Seq<char>) -> bool {
    line.len() > 0 && (line[0] == ' ' || line[0] == '\t')
}

/// The header that a line starts: what stands before its first colon, and what
/// stands behind it.
pub open spec fn header_start(line: Seq<char>) -> Option<(Seq<char>, Seq<char>)> {
    let colon = index_of(line, ':');
    if colon < line.len() {
        Some((trimmed(line.take(colon)), trimmed(line.skip(colon + 1))))
    } else {
        None
    }
}

/// The headers that are complete, and the one that a further line may continue.
#[verifier::ext_equal]
pub struct HeaderProgress {
    pub complete: Seq<(Seq<char>, Seq<char>)>,
    pub current: Option<(Seq<char>, Seq<char>)>,
}

impl HeaderProgress {
    /// The headers, when no further line comes.
    pub open spec fn finished(self) -> Seq<(Seq<char>, Seq<char>)> {
        match self.current {
            Some((name, value)) => self.complete.push((name, trimmed(value))),
            None => self.complete,
        }
    }

    /// One line more: a folded line goes to the header above it, any other line
    /// completes that header and may start one.
    pub open spec fn with_line(self, line: Seq<char>) -> HeaderProgress {
        if is_folded(line) {
            match self.current {
                Some((name, value)) => HeaderProgress {
                    complete: self.complete,
                    current: Some((name, value + " "@ + trimmed(line))),
                },
                None => self,
            }
        } else {
            HeaderProgress { complete: self.finished(), current: header_start(line) }
        }
    }
}

/// What a number of lines make.
pub open spec fn header_progress(lines: Seq<Seq<char>>) -> HeaderProgress
    decreases lines.len(),
{
    if lines.len() == 0 {
        HeaderProgress { complete: Seq::empty(), current: None }
    } else {
        header_progress(lines.drop_last()).with_line(lines.last())
    }
}

/// The headers of a message in arrival order, repeated names included.
pub open spec fn header_pairs(raw: Seq<u8>) -> Seq<(Seq<char>, Seq<char>)> {
    header_progress(split_at_text(header_block(raw), "\r\n"@)).finished()
}

fn start_of_header(line: &str) -> (r: Option<Header>)
    ensures
        match r {
            Some(h) => header_start(line@) == Some(h@),
            None => header_start(line@) is None,
        },
{
    let cs = chars_of(line);
    let colon = find_char(&cs, ':');
    if colon < cs.len() {
        let name = text_range(&cs, 0, colon);
        let value = text_range(&cs, colon + 1, cs.len());
        assert(name@ =~= line@.take(colon as int));
        assert(value@ =~= line@.skip(colon + 1));
        Some(Header { name: trim(name.as_str()), value: trim(value.as_str()) })
    } else {
        None
    }
}

fn continues_header(line: &str) -> (r: bool)
    ensures
        r == is_folded(line@),
{
    let cs = chars_of(line);
    cs.len() > 0 && (cs[0] == ' ' || cs[0] == '\t')
}

/// Adds the header that is still open, if one is.
fn close_header(complete: &mut Vec<Header>, current: Option<Header>)
    ensures
        header_views(final(complete)@) == (HeaderProgress {
            complete: header_views(old(complete)@),
            current: match current {
                Some(h) => Some(h@),
                None => None,
            },
        }).finished(),
{
    if let Some(h) = current {
        let value = trim(h.value.as_str());
        let done = Header { name: h.name, value };
        complete.push(done);
        assert(header_views(complete@) =~= header_views(old(complete)@).push(done@));
    }
}

/// The header block exactly as it arrived, unfolded into name/value pairs.
/// Duplicates are kept in order, which an object keyed by name could not do.
pub fn raw_headers(raw: &[u8]) -> (r: Vec<Header>)
    ensures
        header_views(r@) == header_pairs(raw@),
{
    let block = headers_of(raw);
    proof {
        reveal_strlit("\r\n");
    }
    let lines = split_text(block.as_str(), "\r\n");
    let ghost all = texts(lines@);
    let mut complete: Vec<Header> = Vec::new();
    let mut current: Option<Header> = None;
    let mut i: usize = 0;
    assert(header_views(complete@) =~= Seq::empty());
    assert(all.take(0) =~= Seq::empty());
    while i < lines.len()
        invariant
            i <= lines@.len(),
            all == texts(lines@),
            header_progress(all.take(i as int)) == (HeaderProgress {
                complete: header_views(complete@),
                current: match current {
                    Some(h) => Some(h@),
                    None => None,
                },
            }),
        decreases lines@.len() - i,
    {
        assert(all.take(i + 1).drop_last() =~= all.take(i as int));
        assert(all.take(i + 1).last() == lines@[i as int]@);
        let line = lines[i].as_str();
        if continues_header(line) {
            current = match current {
                Some(h) => {
                    let mut value = h.value;
                    value.append(" ");
                    value.append(trim(line).as_str());
                    Some(Header { name: h.name, value })
                },
                None => None,
            };
        } else {
            close_header(&mut complete, current);
            current = start_of_header(line);
        }
        i += 1;
    }
    assert(all.take(all.len() as int) =~= all);
    close_header(&mut complete, current);
    complete
}

// ---- what a message looks like ----

/// The fields every listing entry carries. A single message has the same fields
/// with its content added, so a test can move from a listing to a body without
/// learning a second shape.
#[derive(Debug, Clone)]
pub struct MessageSummary {
    pub id: String,
    pub subject: String,
    pub from: String,
    pub mail_from: String,
    pub rcpt_to: Vec<String>,
    pub size: usize,
    pub received_at: i64,
    pub expires_at: i64,
    pub credential: String,
    /// `plaintext`, `starttls` or `tls`.
    pub security: &'static str,
    pub tls_version: Option<String>,
    pub tls_cipher: Option<String>,
    pub peer: String,
    pub helo: String,
    pub esmtp: bool,
    pub auth: String,
}

impl MessageSummary {
    /// Whether this is the summary of `e`.
    pub open spec fn describes(&self, e: EmailView) -> bool {
        &&& self.id@ == e.id
        &&& self.subject@ == e.subject
        &&& self.from@ == e.from_header
        &&& self.mail_from@ == e.mail_from
        &&& texts(self.rcpt_to@) == e.rcpt_to
        &&& self.size == e.raw.len()
        &&& self.received_at == e.received_at
        &&& self.expires_at == e.expires_at
        &&& self.credential@ == e.cred_username
        &&& self.security@ == e.conn.kind.api_text()
        &&& opt_text(self.tls_version) == e.conn.tls_version
        &&& opt_text(self.tls_cipher) == e.conn.tls_cipher
        &&& self.peer@ == e.conn.peer_addr
        &&& self.helo@ == e.conn.helo
        &&& self.esmtp == e.conn.esmtp
        &&& self.auth@ == e.conn.auth_mechanism
    }
}

pub fn summary(e: &StoredEmail) -> (r: MessageSummary)
    ensures
        r.describes(e@),
{
    MessageSummary {
        id: e.id.clone(),
        subject: e.subject.clone(),
        from: e.from_header.clone(),
        mail_from: e.mail_from.clone(),
        rcpt_to: copy_list(&e.rcpt_to),
        size: e.raw.len(),
        received_at: e.received_at,
        expires_at: e.expires_at,
        credential: e.cred_username.clone(),
        security: e.conn.kind.api_name(),
        tls_version: copy_opt(&e.conn.tls_version),
        tls_cipher: copy_opt(&e.conn.tls_cipher),
        peer: e.conn.peer_addr.clone(),
        helo: e.conn.helo.clone(),
        esmtp: e.conn.esmtp,
        auth: e.conn.auth_mechanism.clone(),
    }
}

/// The text of the first part that is HTML, or of the first that is not.
pub open spec fn first_body(parts: Seq<(bool, Option<Seq<char>>)>, html: bool) -> Option<Seq<char>>
    decreases parts.len(),
{
    if parts.len() == 0 {
        None
    } else if parts[0].0 == html {
        parts[0].1
    } else {
        first_body(parts.skip(1), html)
    }
}

fn find_body(parts: &Vec<Part>, html: bool) -> (r: Option<String>)
    ensures
        opt_text(r) == first_body(part_texts(parts@), html),
{
    let ghost all = part_texts(parts@);
    let mut i: usize = 0;
    assert(all.skip(0) =~= all);
    while i < parts.len()
        invariant
            i <= parts@.len(),
            all == part_texts(parts@),
            first_body(all, html) == first_body(all.skip(i as int), html),
        decreases parts@.len() - i,
    {
        assert(all.skip(i as int)[0] == all[i as int]);
        assert(all.skip(i as int).skip(1) =~= all.skip(i + 1));
        if parts[i].html == html {
            return copy_opt(&parts[i].text);
        }
        i += 1;
    }
    None
}

/// An attachment: its file name, its media type and its size.
#[derive(Debug, Clone)]
pub struct Attachment {
    pub filename: Option<String>,
    pub content_type: Option<String>,
    pub size: usize,
}

/// The media type of an attachment.
pub open spec fn media_type(a: AttachmentPartView) -> Option<Seq<char>> {
    match a.main_type {
        Some(t) => match a.subtype {
            Some(s) => Some(t + "/"@ + s),
            None => Some(t),
        },
        None => None,
    }
}

impl Attachment {
    /// Whether this describes the attachment that the parser found.
    pub open spec fn describes(&self, a: AttachmentPartView) -> bool {
        &&& opt_text(self.filename) == a.name
        &&& opt_text(self.content_type) == media_type(a)
        &&& self.size == a.size
    }
}

fn describe_attachment(a: &AttachmentPart) -> (r: Attachment)
    ensures
        r.describes(a@),
{
    let content_type = match &a.main_type {
        Some(t) => {
            let mut out = t.clone();
            if let Some(s) = &a.subtype {
                out.append("/");
                out.append(s.as_str());
            }
            Some(out)
        },
        None => None,
    };
    Attachment { filename: copy_opt(&a.name), content_type, size: a.size }
}

/// Whether `list` describes the attachments `parts`, one by one.
pub open spec fn attachments_described(
    list: Seq<Attachment>,
    parts: Seq<AttachmentPartView>,
) -> bool {
    &&& list.len() == parts.len()
    &&& forall|i: int| 0 <= i < list.len() ==> (#[trigger] list[i]).describes(parts[i])
}

fn describe_attachments(parts: &Vec<AttachmentPart>) -> (r: Vec<Attachment>)
    ensures
        attachments_described(r@, attachment_views(parts@)),
{
    let mut out: Vec<Attachment> = Vec::new();
    let mut i: usize = 0;
    while i < parts.len()
        invariant
            i <= parts@.len(),
            out@.len() == i,
            forall|j: int|
                0 <= j < i ==> (#[trigger] out@[j]).describes(attachment_views(parts@)[j]),
        decreases parts@.len() - i,
    {
        out.push(describe_attachment(&parts[i]));
        i += 1;
    }
    out
}

/// A message with its content.
#[derive(Debug, Clone)]
pub struct Message {
    pub summary: MessageSummary,
    pub parsed: bool,
    /// The text part that was in the message.
    pub text: Option<String>,
    /// The HTML part that was in the message.
    pub html: Option<String>,
    pub attachments: Vec<Attachment>,
    pub headers: Vec<Header>,
    pub raw: String,
}

impl Message {
    /// Whether this is the message `e`, in which the parser found those parts.
    pub open spec fn renders(
        &self,
        e: EmailView,
        parsed: bool,
        text_parts: Seq<(bool, Option<Seq<char>>)>,
        html_parts: Seq<(bool, Option<Seq<char>>)>,
        attachments: Seq<AttachmentPartView>,
    ) -> bool {
        &&& self.summary.describes(e)
        &&& self.parsed == parsed
        &&& opt_text(self.text) == (if parsed {
            first_body(text_parts, false)
        } else {
            None
        })
        &&& opt_text(self.html) == (if parsed {
            first_body(html_parts, true)
        } else {
            None
        })
        &&& attachments_described(
            self.attachments@,
            if parsed {
                attachments
            } else {
                Seq::empty()
            },
        )
        &&& header_views(self.headers@) == header_pairs(e.raw)
        &&& self.raw@ == lossy(e.raw)
    }

    /// Whether this is the message `e`.
    pub open spec fn shows(&self, e: EmailView) -> bool {
        self.renders(
            e,
            parses(e.raw),
            text_parts_of(e.raw),
            html_parts_of(e.raw),
            attachments_of(e.raw),
        )
    }
}

/// A message with its content, given what the parser found in it.
pub fn compose(
    e: &StoredEmail,
    parts: &Option<Parts>,
    attachments: &Option<Vec<AttachmentPart>>,
) -> (r: Message)
    ensures
        match (*parts, *attachments) {
            (Some(p), Some(a)) => r.renders(
                e@,
                true,
                part_texts(p.text@),
                part_texts(p.html@),
                attachment_views(a@),
            ),
            _ => r.renders(e@, false, Seq::empty(), Seq::empty(), Seq::empty()),
        },
{
    let (parsed, text, html, described) = match (parts, attachments) {
        // Deliberately the parts as they arrived, rather than bodies made by
        // converting one into the other. A test asserting that its mail carries
        // no HTML should not be told that it does.
        (Some(p), Some(a)) => (
            true,
            find_body(&p.text, false),
            find_body(&p.html, true),
            describe_attachments(a),
        ),
        _ => (false, None, None, Vec::new()),
    };
    Message {
        summary: summary(e),
        parsed,
        text,
        html,
        attachments: described,
        headers: raw_headers(e.raw.as_slice()),
        // Lossy on purpose: a test that sends deliberately broken bytes should
        // still get a response it can look at.
        raw: from_utf8_lossy(e.raw.as_slice()),
    }
}

/// A message with its content.
pub fn full(e: &StoredEmail) -> (r: Message)
    ensures
        r.shows(e@),
{
    let parts = read_parts(e.raw.as_slice());
    let attachments = read_attachments(e.raw.as_slice());
    compose(e, &parts, &attachments)
}

// ---- requests ----

/// The messages of a listing that pass a filter, in order.
pub open spec fn selected(q: Seq<Arc<StoredEmail>>, filter: Filter) -> Seq<Arc<StoredEmail>>
    decreases q.len(),
{
    if q.len() == 0 {
        Seq::empty()
    } else if filter.accepts(q.last()@) {
        selected(q.drop_last(), filter).push(q.last())
    } else {
        selected(q.drop_last(), filter)
    }
}

/// The number of messages that a filter shows of `n` that pass it.
pub open spec fn shown_count(filter: Filter, n: nat) -> nat {
    match filter.limit {
        Some(limit) if limit < n => limit as nat,
        _ => n,
    }
}

/// A listing: the summaries it holds, and how many messages pass its filter.
#[derive(Debug, Clone)]
pub struct Listing {
    pub count: usize,
    pub total: usize,
    pub messages: Vec<MessageSummary>,
}

impl Listing {
    /// Whether this lists the messages of `q` that pass `filter`.
    pub open spec fn lists(&self, q: Seq<Arc<StoredEmail>>, filter: Filter) -> bool {
        let passed = selected(q, filter);
        &&& self.total == passed.len()
        &&& self.count == shown_count(filter, passed.len())
        &&& self.messages@.len() == self.count
        &&& forall|i: int|
            0 <= i < self.messages@.len() ==> (#[trigger] self.messages@[i]).describes(passed[i]@)
    }
}

/// The listing of the messages `all` that pass a filter.
pub fn listing(all: &Vec<Arc<StoredEmail>>, filter: &Filter) -> (r: Listing)
    ensures
        r.lists(all@, *filter),
{
    let mut total: usize = 0;
    let mut messages: Vec<MessageSummary> = Vec::new();
    let mut i: usize = 0;
    assert(all@.take(0) =~= Seq::empty());
    while i < all.len()
        invariant
            i <= all@.len(),
            total <= i,
            total == selected(all@.take(i as int), *filter).len(),
            messages@.len() == shown_count(*filter, total as nat),
            forall|j: int|
                0 <= j < messages@.len() ==> (#[trigger] messages@[j]).describes(
                    selected(all@.take(i as int), *filter)[j]@,
                ),
        decreases all@.len() - i,
    {
        assert(all@.take(i + 1).drop_last() =~= all@.take(i as int));
        assert(all@.take(i + 1).last() == all@[i as int]);
        if filter.matches(&all[i]) {
            let room = match filter.limit {
                Some(limit) => total < limit,
                None => true,
            };
            if room {
                messages.push(summary(&all[i]));
            }
            total += 1;
        }
        i += 1;
    }
    assert(all@.take(all@.len() as int) =~= all@);
    Listing { count: messages.len(), total, messages }
}

/// The listing of a user's mailbox at `now`, newest message first.
pub fn list_at(store: &MailStore, user_id: i64, filter: &Filter, now: i64) -> (r: Listing)
    ensures
        r.lists(live(mailbox(store@, user_id), now).reverse(), *filter),
{
    listing(&store.list_at(user_id, now), filter)
}

/// The listing of a user's mailbox, newest message first.
pub fn list(store: &MailStore, user_id: i64, filter: &Filter) -> (r: Listing)
    ensures
        exists|now: i64|
            r.lists(#[trigger] live(mailbox(store@, user_id), now).reverse(), *filter),
{
    let now = now_unix();
    list_at(store, user_id, filter, now)
}

pub const NO_MATCH: &'static str = "no message matches";

/// Whether `r` answers a request for the newest of the messages `q` that pass a
/// filter, `q` being newest first.
pub open spec fn is_latest(
    r: Result<Message, Failure>,
    q: Seq<Arc<StoredEmail>>,
    filter: Filter,
) -> bool {
    let passed = selected(q, filter);
    if passed.len() > 0 {
        r is Ok && r->Ok_0.shows(passed[0]@)
    } else {
        r is Err && r->Err_0.status == 404 && r->Err_0.error@ == NO_MATCH@
    }
}

/// The newest message of a user's mailbox that passes a filter at `now`.
pub fn latest_at(store: &MailStore, user_id: i64, filter: &Filter, now: i64) -> (r: Result<
    Message,
    Failure,
>)
    ensures
        is_latest(r, live(mailbox(store@, user_id), now).reverse(), *filter),
{
    let all = store.list_at(user_id, now);
    let mut i: usize = 0;
    assert(all@.take(0) =~= Seq::empty());
    while i < all.len()
        invariant
            i <= all@.len(),
            selected(all@.take(i as int), *filter).len() == 0,
            all@ == live(mailbox(store@, user_id), now).reverse(),
        decreases all@.len() - i,
    {
        assert(all@.take(i + 1).drop_last() =~= all@.take(i as int));
        assert(all@.take(i + 1).last() == all@[i as int]);
        if filter.matches(&all[i]) {
            proof {
                lemma_selected_starts(all@, *filter, i + 1);
                let first = selected(all@.take(i + 1), *filter);
                assert(first[0] == all@[i as int]);
                assert(first[0] == selected(all@, *filter).subrange(0, first.len() as int)[0]);
            }
            return Ok(full(&all[i]));
        }
        i += 1;
    }
    assert(all@.take(all@.len() as int) =~= all@);
    Err(Failure { status: 404, error: NO_MATCH })
}

/// What passes a filter among the first messages passes it first among all.
proof fn lemma_selected_starts(q: Seq<Arc<StoredEmail>>, filter: Filter, n: int)
    requires
        0 <= n <= q.len(),
    ensures
        selected(q.take(n), filter).is_prefix_of(selected(q, filter)),
    decreases q.len() - n,
{
    if n < q.len() {
        assert(q.take(n + 1).drop_last() =~= q.take(n));
        lemma_selected_starts(q, filter, n + 1);
        let a = selected(q.take(n), filter);
        let b = selected(q.take(n + 1), filter);
        assert(a.is_prefix_of(b));
        assert(a =~= selected(q, filter).take(a.len() as int));
    } else {
        assert(q.take(n) =~= q);
    }
}

/// The newest message of a user's mailbox that passes a filter.
pub fn latest(store: &MailStore, user_id: i64, filter: &Filter) -> (r: Result<Message, Failure>)
    ensures
        exists|now: i64|
            is_latest(r, #[trigger] live(mailbox(store@, user_id), now).reverse(), *filter),
{
    let now = now_unix();
    latest_at(store, user_id, filter, now)
}

pub const NOT_FOUND: &'static str = "message not found (it may have expired)";

/// Whether `r` answers a request for the message that a lookup found.
pub open spec fn is_answer(r: Result<Message, Failure>, found: Option<Arc<StoredEmail>>) -> bool {
    match found {
        Some(e) => r is Ok && r->Ok_0.shows(e@),
        None => r is Err && r->Err_0.status == 404 && r->Err_0.error@ == NOT_FOUND@,
    }
}

/// One message of a user's mailbox at `now`.
pub fn get_one_at(store: &MailStore, user_id: i64, id: &str, now: i64) -> (r: Result<
    Message,
    Failure,
>)
    ensures
        is_answer(r, found(mailbox(store@, user_id), id@, now)),
{
    match store.get_at(user_id, id, now) {
        Some(e) => Ok(full(&e)),
        None => Err(Failure { status: 404, error: NOT_FOUND }),
    }
}

/// One message of a user's mailbox.
pub fn get_one(store: &MailStore, user_id: i64, id: &str) -> (r: Result<Message, Failure>)
    ensures
        exists|now: i64| is_answer(r, #[trigger] found(mailbox(store@, user_id), id@, now)),
{
    let now = now_unix();
    get_one_at(store, user_id, id, now)
}

} // verus!
