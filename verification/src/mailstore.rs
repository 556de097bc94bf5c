//! The messages that the void keeps for a while, and how each one arrived.

use std::collections::{HashMap, VecDeque};
use std::sync::Arc;

use vstd::prelude::*;
use vstd::std_specs::iter::IteratorSpec;
use vstd::string::*;

use crate::bytes::byte_range;
use crate::config::now_unix;
use crate::mime::{parse_summary, parses, sender_of, shown_sender, shown_subject, subject_of};
use crate::random::{is_token, random_token};
use crate::tally::{at_most_usize, listed_total, listed_total_is_total, total};
use crate::text::{copy_list, copy_opt, opt_text, same, texts};

verus! {

broadcast use vstd::std_specs::hash::group_hash_axioms;

/// How the message reached the SMTP listener.
#[derive(Debug, Clone, Copy, PartialEq, Eq, Structural)]
pub enum ConnKind {
    /// Plain TCP, no encryption at any point.
    Plaintext,
    /// Plain TCP upgraded with STARTTLS before submission.
    StartTls,
    /// Implicit TLS from the first byte (SMTPS).
    ImplicitTls,
}

impl ConnKind {
    pub open spec fn label_text(self) -> Seq<char> {
        match self {
            ConnKind::Plaintext => "plaintext"@,
            ConnKind::StartTls => "STARTTLS"@,
            ConnKind::ImplicitTls => "implicit TLS"@,
        }
    }

    /// The name that people read.
    pub fn label(self) -> (r: &'static str)
        ensures
            r@ == self.label_text(),
    {
        match self {
            ConnKind::Plaintext => "plaintext",
            ConnKind::StartTls => "STARTTLS",
            ConnKind::ImplicitTls => "implicit TLS",
        }
    }

    pub open spec fn api_text(self) -> Seq<char> {
        match self {
            ConnKind::Plaintext => "plaintext"@,
            ConnKind::StartTls => "starttls"@,
            ConnKind::ImplicitTls => "tls"@,
        }
    }

    /// The name that the mail API reports.
    pub fn api_name(self) -> (r: &'static str)
        ensures
            r@ == self.api_text(),
    {
        match self {
            ConnKind::Plaintext => "plaintext",
            ConnKind::StartTls => "starttls",
            ConnKind::ImplicitTls => "tls",
        }
    }
}

/// Connection metadata recorded for every accepted message.
#[derive(Debug, Clone)]
pub struct ConnectionInfo {
    pub kind: ConnKind,
    pub tls_version: Option<String>,
    pub tls_cipher: Option<String>,
    pub peer_addr: String,
    pub helo: String,
    pub esmtp: bool,
    pub auth_mechanism: String,
}

/// What a [`ConnectionInfo`] says.
#[verifier::ext_equal]
pub struct ConnectionView {
    pub kind: ConnKind,
    pub tls_version: Option<Seq<char>>,
    pub tls_cipher: Option<Seq<char>>,
    pub peer_addr: Seq<char>,
    pub helo: Seq<char>,
    pub esmtp: bool,
    pub auth_mechanism: Seq<char>,
}

impl View for ConnectionInfo {
    type V = ConnectionView;

    open spec fn view(&self) -> ConnectionView {
        ConnectionView {
            kind: self.kind,
            tls_version: opt_text(self.tls_version),
            tls_cipher: opt_text(self.tls_cipher),
            peer_addr: self.peer_addr@,
            helo: self.helo@,
            esmtp: self.esmtp,
            auth_mechanism: self.auth_mechanism@,
        }
    }
}

/// One message resting in the void. Only ever lives in memory.
#[derive(Debug, Clone)]
pub struct StoredEmail {
    pub id: String,
    pub cred_username: String,
    pub mail_from: String,
    pub rcpt_to: Vec<String>,
    pub raw: Vec<u8>,
    pub received_at: i64,
    pub expires_at: i64,
    pub conn: ConnectionInfo,
    /// Parsed at ingest time for list views.
    pub subject: String,
    pub from_header: String,
}

/// What a [`StoredEmail`] says.
#[verifier::ext_equal]
pub struct EmailView {
    pub id: Seq<char>,
    pub cred_username: Seq<char>,
    pub mail_from: Seq<char>,
    pub rcpt_to: Seq<Seq<char>>,
    pub raw: Seq<u8>,
    pub received_at: i64,
    pub expires_at: i64,
    pub conn: ConnectionView,
    pub subject: Seq<char>,
    pub from_header: Seq<char>,
}

impl View for StoredEmail {
    type V = EmailView;

    open spec fn view(&self) -> EmailView {
        EmailView {
            id: self.id@,
            cred_username: self.cred_username@,
            mail_from: self.mail_from@,
            rcpt_to: texts(self.rcpt_to@),
            raw: self.raw@,
            received_at: self.received_at,
            expires_at: self.expires_at,
            conn: self.conn@,
            subject: self.subject@,
            from_header: self.from_header@,
        }
    }
}

/// `Arc::clone` of the standard library: another reference to the same message.
#[verifier::external_body]
fn share(e: &Arc<StoredEmail>) -> (r: Arc<StoredEmail>)
    ensures
        r == *e,
{
    e.clone()
}

// ---- what the store does ----

/// When a message that is received at `now` vanishes: `retention` seconds later,
/// or at the end of time.
pub open spec fn expiry(now: i64, retention: u64) -> i64 {
    if now + retention <= i64::MAX {
        (now + retention) as i64
    } else {
        i64::MAX
    }
}

fn expiry_of(now: i64, retention: u64) -> (r: i64)
    ensures
        r == expiry(now, retention),
{
    let at = now as i128 + retention as i128;
    if at <= i64::MAX as i128 {
        at as i64
    } else {
        i64::MAX
    }
}

/// A message as it is stored: what was submitted, with the subject and the sender
/// that its headers give, and the time at which it vanishes.
pub open spec fn captured(
    id: Seq<char>,
    cred_username: Seq<char>,
    mail_from: Seq<char>,
    rcpt_to: Seq<Seq<char>>,
    raw: Seq<u8>,
    conn: ConnectionView,
    received_at: i64,
    retention: u64,
) -> EmailView {
    EmailView {
        id,
        cred_username,
        mail_from,
        rcpt_to,
        raw,
        received_at,
        expires_at: expiry(received_at, retention),
        conn,
        subject: shown_subject(parses(raw), subject_of(raw)),
        from_header: shown_sender(parses(raw), sender_of(raw)),
    }
}

/// The messages of a mailbox that have not expired at `now`, in order.
pub open spec fn live(q: Seq<Arc<StoredEmail>>, now: i64) -> Seq<Arc<StoredEmail>>
    decreases q.len(),
{
    if q.len() == 0 {
        Seq::empty()
    } else if q.last().expires_at > now {
        live(q.drop_last(), now).push(q.last())
    } else {
        live(q.drop_last(), now)
    }
}

/// The messages of a mailbox but for those with that id, in order.
pub open spec fn without_id(q: Seq<Arc<StoredEmail>>, id: Seq<char>) -> Seq<Arc<StoredEmail>>
    decreases q.len(),
{
    if q.len() == 0 {
        Seq::empty()
    } else if q.last().id@ == id {
        without_id(q.drop_last(), id)
    } else {
        without_id(q.drop_last(), id).push(q.last())
    }
}

/// The first message of a mailbox that has that id and has not expired at `now`.
pub open spec fn found(q: Seq<Arc<StoredEmail>>, id: Seq<char>, now: i64) -> Option<
    Arc<StoredEmail>,
>
    decreases q.len(),
{
    if q.len() == 0 {
        None
    } else if q[0].id@ == id && q[0].expires_at > now {
        Some(q[0])
    } else {
        found(q.skip(1), id, now)
    }
}

/// A mailbox with one message more: the oldest make room for it.
pub open spec fn with_message(
    q: Seq<Arc<StoredEmail>>,
    e: Arc<StoredEmail>,
    cap: usize,
) -> Seq<Arc<StoredEmail>> {
    if q.len() >= cap {
        q.skip(q.len() - cap + 1).push(e)
    } else {
        q.push(e)
    }
}

/// The bytes of the messages of a mailbox.
pub open spec fn bytes_of(q: Seq<Arc<StoredEmail>>) -> nat
    decreases q.len(),
{
    if q.len() == 0 {
        0
    } else {
        bytes_of(q.drop_last()) + q.last().raw@.len()
    }
}

/// The mailbox of a user: an empty one if nothing was ever stored.
pub open spec fn mailbox(m: Map<i64, Seq<Arc<StoredEmail>>>, user_id: i64) -> Seq<
    Arc<StoredEmail>,
> {
    if m.dom().contains(user_id) {
        m[user_id]
    } else {
        Seq::empty()
    }
}

/// The mailboxes without what has expired at `now`, and without empty ones.
pub open spec fn swept(m: Map<i64, Seq<Arc<StoredEmail>>>, now: i64) -> Map<
    i64,
    Seq<Arc<StoredEmail>>,
> {
    Map::new(
        |u: i64| m.dom().contains(u) && live(m[u], now).len() > 0,
        |u: i64| live(m[u], now),
    )
}

/// How many messages of a user have expired at `now`.
pub open spec fn expired_weight(m: Map<i64, Seq<Arc<StoredEmail>>>, now: i64) -> spec_fn(
    i64,
) -> nat {
    |u: i64| (m[u].len() - live(m[u], now).len()) as nat
}

/// How many messages have expired at `now`.
pub open spec fn expired_count(m: Map<i64, Seq<Arc<StoredEmail>>>, now: i64) -> nat {
    total(m.dom(), expired_weight(m, now))
}

/// Whether `users` lists the users that have a mailbox, each once.
pub open spec fn lists_users(users: Seq<i64>, m: Map<i64, Seq<Arc<StoredEmail>>>) -> bool {
    &&& users.no_duplicates()
    &&& users.to_set() == m.dom()
}

/// Whether `usage` gives, for each user, the messages and the bytes that have not
/// expired at `now`.
pub open spec fn usage_is(
    m: Map<i64, Seq<Arc<StoredEmail>>>,
    usage: Map<i64, (usize, usize)>,
    now: i64,
) -> bool {
    &&& usage.dom() == m.dom()
    &&& forall|u: i64| #[trigger]
        m.dom().contains(u) ==> usage[u] == (
            live(m[u], now).len() as usize,
            at_most_usize(bytes_of(live(m[u], now))),
        )
}

/// A message with its expiry moved to `retention` seconds after its arrival.
pub open spec fn redated(e: EmailView, retention: u64) -> EmailView {
    EmailView { expires_at: expiry(e.received_at, retention), ..e }
}

/// Whether `b` holds the messages of `a`, with new expiry times.
pub open spec fn is_redated(
    a: Seq<Arc<StoredEmail>>,
    b: Seq<Arc<StoredEmail>>,
    retention: u64,
) -> bool {
    &&& a.len() == b.len()
    &&& forall|i: int|
        0 <= i < a.len() ==> (#[trigger] b[i])@ == redated(a[i]@, retention)
}

proof fn lemma_live_length(q: Seq<Arc<StoredEmail>>, now: i64)
    ensures
        live(q, now).len() <= q.len(),
    decreases q.len(),
{
    if q.len() > 0 {
        lemma_live_length(q.drop_last(), now);
    }
}

fn keep_live(q: &VecDeque<Arc<StoredEmail>>, now: i64) -> (r: VecDeque<Arc<StoredEmail>>)
    ensures
        r@ == live(q@, now),
{
    let mut out: VecDeque<Arc<StoredEmail>> = VecDeque::new();
    let mut i: usize = 0;
    assert(q@.take(0) =~= Seq::empty());
    while i < q.len()
        invariant
            i <= q@.len(),
            out@ == live(q@.take(i as int), now),
        decreases q@.len() - i,
    {
        assert(q@.take(i + 1).drop_last() =~= q@.take(i as int));
        assert(q@.take(i + 1).last() == q@[i as int]);
        if q[i].expires_at > now {
            out.push_back(share(&q[i]));
        }
        i += 1;
    }
    assert(q@.take(q@.len() as int) =~= q@);
    out
}

fn drop_id(q: &VecDeque<Arc<StoredEmail>>, id: &str) -> (r: VecDeque<Arc<StoredEmail>>)
    ensures
        r@ == without_id(q@, id@),
{
    let mut out: VecDeque<Arc<StoredEmail>> = VecDeque::new();
    let mut i: usize = 0;
    assert(q@.take(0) =~= Seq::empty());
    while i < q.len()
        invariant
            i <= q@.len(),
            out@ == without_id(q@.take(i as int), id@),
        decreases q@.len() - i,
    {
        assert(q@.take(i + 1).drop_last() =~= q@.take(i as int));
        assert(q@.take(i + 1).last() == q@[i as int]);
        if !same(q[i].id.as_str(), id) {
            out.push_back(share(&q[i]));
        }
        i += 1;
    }
    assert(q@.take(q@.len() as int) =~= q@);
    out
}

/// The bytes of the messages of a mailbox, up to the largest `usize`.
fn count_stored_bytes(q: &VecDeque<Arc<StoredEmail>>) -> (r: usize)
    ensures
        r == at_most_usize(bytes_of(q@)),
{
    let mut sum: usize = 0;
    let mut i: usize = 0;
    assert(q@.take(0) =~= Seq::empty());
    while i < q.len()
        invariant
            i <= q@.len(),
            sum == at_most_usize(bytes_of(q@.take(i as int))),
        decreases q@.len() - i,
    {
        assert(q@.take(i + 1).drop_last() =~= q@.take(i as int));
        assert(q@.take(i + 1).last() == q@[i as int]);
        let n = q[i].raw.len();
        sum = if n <= usize::MAX - sum {
            sum + n
        } else {
            usize::MAX
        };
        i += 1;
    }
    assert(q@.take(q@.len() as int) =~= q@);
    sum
}

fn copy_conn(c: &ConnectionInfo) -> (r: ConnectionInfo)
    ensures
        r@ == c@,
{
    ConnectionInfo {
        kind: c.kind,
        tls_version: copy_opt(&c.tls_version),
        tls_cipher: copy_opt(&c.tls_cipher),
        peer_addr: c.peer_addr.clone(),
        helo: c.helo.clone(),
        esmtp: c.esmtp,
        auth_mechanism: c.auth_mechanism.clone(),
    }
}

fn redate(e: &StoredEmail, retention: u64) -> (r: StoredEmail)
    ensures
        r@ == redated(e@, retention),
{
    let raw = byte_range(e.raw.as_slice(), 0, e.raw.len());
    assert(e.raw@.subrange(0, e.raw@.len() as int) =~= e.raw@);
    StoredEmail {
        id: e.id.clone(),
        cred_username: e.cred_username.clone(),
        mail_from: e.mail_from.clone(),
        rcpt_to: copy_list(&e.rcpt_to),
        raw,
        received_at: e.received_at,
        expires_at: expiry_of(e.received_at, retention),
        conn: copy_conn(&e.conn),
        subject: e.subject.clone(),
        from_header: e.from_header.clone(),
    }
}

fn redate_all(q: &VecDeque<Arc<StoredEmail>>, retention: u64) -> (r: VecDeque<Arc<StoredEmail>>)
    ensures
        is_redated(q@, r@, retention),
{
    let mut out: VecDeque<Arc<StoredEmail>> = VecDeque::new();
    let mut i: usize = 0;
    while i < q.len()
        invariant
            i <= q@.len(),
            out@.len() == i,
            forall|j: int| 0 <= j < i ==> (#[trigger] out@[j])@ == redated(q@[j]@, retention),
        decreases q@.len() - i,
    {
        out.push_back(Arc::new(redate(&q[i], retention)));
        i += 1;
    }
    out
}

/// In-memory, self-expiring mailbox store. Messages are never written to disk
/// and never leave this process.
pub struct MailStore {
    boxes: HashMap<i64, VecDeque<Arc<StoredEmail>>>,
    retention_secs: u64,
    per_user_cap: usize,
}

impl View for MailStore {
    type V = Map<i64, Seq<Arc<StoredEmail>>>;

    closed spec fn view(&self) -> Map<i64, Seq<Arc<StoredEmail>>> {
        self.boxes@.map_values(|q: VecDeque<Arc<StoredEmail>>| q@)
    }
}

impl MailStore {
    /// For how many seconds a message is kept.
    pub closed spec fn retention(&self) -> u64 {
        self.retention_secs
    }

    /// How many messages a mailbox holds at most.
    pub closed spec fn cap(&self) -> usize {
        self.per_user_cap
    }

    pub fn new(retention_secs: u64, per_user_cap: usize) -> (r: Self)
        ensures
            r@ == Map::<i64, Seq<Arc<StoredEmail>>>::empty(),
            r.retention() == retention_secs,
            r.cap() == per_user_cap,
    {
        let r = MailStore { boxes: HashMap::new(), retention_secs, per_user_cap };
        assert(r@ =~= Map::empty());
        r
    }

    /// The mailbox of a user, taken out of the store.
    fn take_box(&mut self, user_id: i64) -> (r: VecDeque<Arc<StoredEmail>>)
        ensures
            r@ == mailbox(old(self)@, user_id),
            final(self)@ == old(self)@.remove(user_id),
            final(self).retention() == old(self).retention(),
            final(self).cap() == old(self).cap(),
    {
        let r = self.boxes.remove(&user_id);
        assert(self@ =~= old(self)@.remove(user_id));
        match r {
            Some(q) => q,
            None => VecDeque::new(),
        }
    }

    fn put_box(&mut self, user_id: i64, q: VecDeque<Arc<StoredEmail>>)
        ensures
            final(self)@ == old(self)@.insert(user_id, q@),
            final(self).retention() == old(self).retention(),
            final(self).cap() == old(self).cap(),
    {
        self.boxes.insert(user_id, q);
        assert(self@ =~= old(self)@.insert(user_id, q@));
    }

    /// Puts a message into a mailbox. Evicts the oldest message if the mailbox is
    /// at capacity.
    pub fn put(&mut self, user_id: i64, email: Arc<StoredEmail>)
        requires
            old(self).cap() >= 1,
        ensures
            final(self)@ == old(self)@.insert(
                user_id,
                with_message(mailbox(old(self)@, user_id), email, old(self).cap()),
            ),
            final(self).retention() == old(self).retention(),
            final(self).cap() == old(self).cap(),
    {
        let ghost before = mailbox(self@, user_id);
        let mut q = self.take_box(user_id);
        let cap = self.per_user_cap;
        let ghost mut gone: int = 0;
        assert(before.skip(0) =~= before);
        while q.len() >= cap
            invariant
                cap >= 1,
                0 <= gone <= before.len(),
                q@ == before.skip(gone),
                gone > 0 ==> q@.len() + 1 >= cap,
            decreases q@.len(),
        {
            q.pop_front();
            proof {
                assert(before.skip(gone).skip(1) =~= before.skip(gone + 1));
                assert(before.skip(gone).subrange(1, before.skip(gone).len() as int)
                    =~= before.skip(gone + 1));
                gone = gone + 1;
            }
        }
        q.push_back(email);
        proof {
            assert(q@ =~= with_message(before, email, cap));
        }
        self.put_box(user_id, q);
        assert(self@ =~= old(self)@.insert(user_id, q@));
    }

    /// Store a message, assigning it an id. Evicts the oldest message if the
    /// mailbox is at capacity.
    pub fn add(
        &mut self,
        user_id: i64,
        cred_username: String,
        mail_from: String,
        rcpt_to: Vec<String>,
        raw: Vec<u8>,
        conn: ConnectionInfo,
    ) -> (r: Arc<StoredEmail>)
        requires
            old(self).cap() >= 1,
        ensures
            r@ == captured(
                r.id@,
                cred_username@,
                mail_from@,
                texts(rcpt_to@),
                raw@,
                conn@,
                r.received_at,
                old(self).retention(),
            ),
            is_token(r.id@, 24),
            final(self)@ == old(self)@.insert(
                user_id,
                with_message(mailbox(old(self)@, user_id), r, old(self).cap()),
            ),
            final(self).retention() == old(self).retention(),
            final(self).cap() == old(self).cap(),
    {
        let now = now_unix();
        let (subject, from_header) = parse_summary(raw.as_slice());
        let email = Arc::new(
            StoredEmail {
                id: random_token(24),
                cred_username,
                mail_from,
                rcpt_to,
                raw,
                received_at: now,
                expires_at: expiry_of(now, self.retention_secs),
                conn,
                subject,
                from_header,
            },
        );
        self.put(user_id, share(&email));
        email
    }

    /// The messages of a user that have not expired at `now`, newest first.
    pub fn list_at(&self, user_id: i64, now: i64) -> (r: Vec<Arc<StoredEmail>>)
        ensures
            r@ == live(mailbox(self@, user_id), now).reverse(),
    {
        let mut out: Vec<Arc<StoredEmail>> = Vec::new();
        match self.boxes.get(&user_id) {
            Some(q) => {
                assert(mailbox(self@, user_id) == q@);
                let kept = keep_live(q, now);
                let mut i: usize = kept.len();
                let ghost all = kept@;
                while i > 0
                    invariant
                        i <= kept@.len(),
                        kept@ == all,
                        out@ == all.reverse().take(all.len() - i),
                    decreases i,
                {
                    i -= 1;
                    out.push(share(&kept[i]));
                    assert(all.reverse().take(all.len() - i) =~= all.reverse().take(
                        all.len() - i - 1,
                    ).push(all[i as int]));
                }
                assert(all.reverse().take(all.len() as int) =~= all.reverse());
            },
            None => {
                assert(mailbox(self@, user_id) =~= Seq::empty());
                assert(out@ =~= live(mailbox(self@, user_id), now).reverse());
            },
        }
        out
    }

    /// List a user's messages, newest first, skipping expired ones.
    pub fn list(&self, user_id: i64) -> (r: Vec<Arc<StoredEmail>>)
        ensures
            exists|now: i64| r@ == #[trigger] live(mailbox(self@, user_id), now).reverse(),
    {
        self.list_at(user_id, now_unix())
    }

    /// The message of a user that has that id, if it has not expired at `now`.
    pub fn get_at(&self, user_id: i64, id: &str, now: i64) -> (r: Option<Arc<StoredEmail>>)
        ensures
            r == found(mailbox(self@, user_id), id@, now),
    {
        match self.boxes.get(&user_id) {
            Some(q) => {
                assert(mailbox(self@, user_id) == q@);
                let mut i: usize = 0;
                assert(q@.skip(0) =~= q@);
                while i < q.len()
                    invariant
                        i <= q@.len(),
                        mailbox(self@, user_id) == q@,
                        found(q@, id@, now) == found(q@.skip(i as int), id@, now),
                    decreases q@.len() - i,
                {
                    assert(q@.skip(i as int)[0] == q@[i as int]);
                    assert(q@.skip(i as int).skip(1) =~= q@.skip(i + 1));
                    if same(q[i].id.as_str(), id) && q[i].expires_at > now {
                        return Some(share(&q[i]));
                    }
                    i += 1;
                }
                None
            },
            None => None,
        }
    }

    /// The message of a user that has that id, unless it has expired.
    pub fn get(&self, user_id: i64, id: &str) -> (r: Option<Arc<StoredEmail>>)
        ensures
            exists|now: i64| r == #[trigger] found(mailbox(self@, user_id), id@, now),
    {
        self.get_at(user_id, id, now_unix())
    }

    /// Removes the message of a user that has that id. Returns whether there was
    /// one.
    pub fn delete(&mut self, user_id: i64, id: &str) -> (r: bool)
        ensures
            final(self)@ == (if old(self)@.dom().contains(user_id) {
                old(self)@.insert(user_id, without_id(old(self)@[user_id], id@))
            } else {
                old(self)@
            }),
            r == (without_id(mailbox(old(self)@, user_id), id@) != mailbox(old(self)@, user_id)),
            final(self).retention() == old(self).retention(),
            final(self).cap() == old(self).cap(),
    {
        if !self.boxes.contains_key(&user_id) {
            assert(!self@.dom().contains(user_id));
            return false;
        }
        assert(self@.dom().contains(user_id));
        let q = self.take_box(user_id);
        let kept = drop_id(&q, id);
        proof {
            lemma_without_id(q@, id@);
        }
        let changed = kept.len() != q.len();
        self.put_box(user_id, kept);
        assert(self@ =~= old(self)@.insert(user_id, kept@));
        changed
    }

    /// Empties a user's mailbox.
    pub fn clear(&mut self, user_id: i64)
        ensures
            final(self)@ == old(self)@.remove(user_id),
            final(self).retention() == old(self).retention(),
            final(self).cap() == old(self).cap(),
    {
        self.boxes.remove(&user_id);
        assert(self@ =~= old(self)@.remove(user_id));
    }

    /// The users that have a mailbox.
    fn user_ids(&self) -> (r: Vec<i64>)
        ensures
            lists_users(r@, self@),
    {
        let mut out: Vec<i64> = Vec::new();
        let ghost ids = vstd::std_specs::hash::spec_keys_iter(&self.boxes).remaining();
        for k in it: self.boxes.keys()
            invariant
                it.seq() == ids,
                out@.len() == it.index(),
                forall|j: int| 0 <= j < out@.len() ==> out@[j] == *ids[j],
        {
            out.push(*k);
        }
        proof {
            assert(out@ =~= ids.unref());
            assert(self@.dom() =~= self.boxes@.dom());
            assert forall|a: int, b: int| 0 <= a < b < out@.len() implies out@[a] != out@[b] by {
                assert(ids[a] != ids[b]);
            }
        }
        out
    }
}

proof fn lemma_without_id(q: Seq<Arc<StoredEmail>>, id: Seq<char>)
    ensures
        without_id(q, id).len() <= q.len(),
        without_id(q, id).len() == q.len() ==> without_id(q, id) == q,
    decreases q.len(),
{
    if q.len() > 0 {
        lemma_without_id(q.drop_last(), id);
        if q.last().id@ != id && without_id(q, id).len() == q.len() {
            assert(without_id(q, id) =~= q);
        }
    }
}

impl MailStore {
    /// Drops the messages that have expired at `now`, and the mailboxes that are
    /// left empty. Returns how many messages were removed.
    pub fn sweep_at(&mut self, now: i64) -> (r: usize)
        ensures
            final(self)@ == swept(old(self)@, now),
            r == at_most_usize(expired_count(old(self)@, now)),
            final(self).retention() == old(self).retention(),
            final(self).cap() == old(self).cap(),
    {
        let ids = self.user_ids();
        let ghost start = self@;
        let mut removed: usize = 0;
        let mut i: usize = 0;
        assert(ids@.take(0) =~= Seq::empty());
        assert(ids@.skip(0) =~= ids@);
        assert forall|u: i64| #[trigger] self@.dom().contains(u) implies ids@.contains(u) by {
            assert(ids@.to_set().contains(u));
        }
        while i < ids.len()
            invariant
                i <= ids@.len(),
                lists_users(ids@, start),
                start == old(self)@,
                self.retention() == old(self).retention(),
                self.cap() == old(self).cap(),
                removed == at_most_usize(listed_total(ids@.take(i as int), expired_weight(start, now))),
                forall|j: int| i <= j < ids@.len() ==> self@.dom().contains(#[trigger] ids@[j])
                    && self@[ids@[j]] == start[ids@[j]],
                forall|u: i64| #[trigger]
                    self@.dom().contains(u) && !ids@.skip(i as int).contains(u)
                        ==> start.dom().contains(u) && live(start[u], now).len() > 0 && self@[u]
                        == live(start[u], now),
                forall|j: int|
                    0 <= j < i && live(start[#[trigger] ids@[j]], now).len() > 0
                        ==> self@.dom().contains(ids@[j]),
            decreases ids@.len() - i,
        {
            let u = ids[i];
            let ghost before = self@;
            assert(self@.dom().contains(ids@[i as int]));
            let q = self.take_box(u);
            let kept = keep_live(&q, now);
            proof {
                lemma_live_length(q@, now);
                assert(ids@.take(i + 1).drop_last() =~= ids@.take(i as int));
                assert(ids@.take(i + 1).last() == u);
            }
            let gone = q.len() - kept.len();
            removed = if gone <= usize::MAX - removed {
                removed + gone
            } else {
                usize::MAX
            };
            if kept.len() > 0 {
                self.put_box(u, kept);
            }
            proof {
                assert forall|j: int| i + 1 <= j < ids@.len() implies self@.dom().contains(
                    #[trigger] ids@[j],
                ) && self@[ids@[j]] == start[ids@[j]] by {
                    assert(ids@[j] != ids@[i as int]);
                    assert(before.dom().contains(ids@[j]));
                }
                assert forall|w: i64| #[trigger]
                    self@.dom().contains(w) && !ids@.skip(i + 1).contains(
                        w,
                    ) implies start.dom().contains(w) && live(start[w], now).len() > 0 && self@[w]
                    == live(start[w], now) by {
                    if w == u {
                        assert(ids@.to_set().contains(u)) by {
                            assert(ids@[i as int] == u);
                        }
                    } else {
                        assert(before.dom().contains(w));
                        assert(!ids@.skip(i as int).contains(w)) by {
                            let todo = ids@.skip(i as int);
                            if todo.contains(w) {
                                let k = choose|k: int| 0 <= k < todo.len() && todo[k] == w;
                                assert(k != 0);
                                assert(ids@.skip(i + 1)[k - 1] == w);
                            }
                        }
                    }
                }
                assert forall|j: int|
                    0 <= j < i + 1 && live(start[#[trigger] ids@[j]], now).len() > 0 implies
                    self@.dom().contains(ids@[j]) by {
                    if j < i {
                        assert(before.dom().contains(ids@[j]));
                        assert(ids@[j] != ids@[i as int]);
                    }
                }
            }
            i += 1;
        }
        proof {
            assert(ids@.take(ids@.len() as int) =~= ids@);
            listed_total_is_total(ids@, expired_weight(start, now));
            assert(ids@.skip(ids@.len() as int) =~= Seq::empty());
            assert forall|u: i64| swept(start, now).dom().contains(u) implies self@.dom().contains(
                u,
            ) by {
                assert(ids@.to_set().contains(u));
                let j = choose|j: int| 0 <= j < ids@.len() && ids@[j] == u;
                assert(ids@[j] == u);
            }
            assert(self@ =~= swept(start, now));
        }
        removed
    }

    /// Drop expired messages. Returns how many were removed.
    pub fn sweep(&mut self) -> (r: usize)
        ensures
            exists|now: i64|
                final(self)@ == #[trigger] swept(old(self)@, now) && r == at_most_usize(
                    expired_count(old(self)@, now),
                ),
            final(self).retention() == old(self).retention(),
            final(self).cap() == old(self).cap(),
    {
        self.sweep_at(now_unix())
    }

    /// Per-user (message count, byte count) of the mail that has not expired at
    /// `now`. A byte count beyond the largest `usize` is shown as that.
    pub fn usage_at(&self, now: i64) -> (r: HashMap<i64, (usize, usize)>)
        ensures
            usage_is(self@, r@, now),
    {
        let ids = self.user_ids();
        let mut out: HashMap<i64, (usize, usize)> = HashMap::new();
        let mut i: usize = 0;
        while i < ids.len()
            invariant
                i <= ids@.len(),
                lists_users(ids@, self@),
                forall|u: i64| #[trigger] out@.dom().contains(u) <==> ids@.take(i as int).contains(u),
                forall|u: i64| #[trigger]
                    out@.dom().contains(u) ==> out@[u] == (
                        live(self@[u], now).len() as usize,
                        at_most_usize(bytes_of(live(self@[u], now))),
                    ),
            decreases ids@.len() - i,
        {
            let u = ids[i];
            assert(self@.dom().contains(u)) by {
                assert(ids@[i as int] == u);
                assert(ids@.to_set().contains(u));
            }
            match self.boxes.get(&u) {
                Some(q) => {
                    let kept = keep_live(q, now);
                    let bytes = count_stored_bytes(&kept);
                    let ghost before = out@;
                    out.insert(u, (kept.len(), bytes));
                    proof {
                        assert forall|w: i64| #[trigger] out@.dom().contains(w) <==> ids@.take(
                            i + 1,
                        ).contains(w) by {
                            assert(ids@.take(i + 1) =~= ids@.take(i as int).push(u));
                            let seen = ids@.take(i as int);
                            let now_seen = ids@.take(i + 1);
                            if now_seen.contains(w) && w != u {
                                let k = choose|k: int| 0 <= k < now_seen.len() && now_seen[k] == w;
                                assert(seen[k] == w);
                            }
                            if seen.contains(w) {
                                let k = choose|k: int| 0 <= k < seen.len() && seen[k] == w;
                                assert(now_seen[k] == w);
                            }
                            assert(now_seen[i as int] == u);
                        }
                    }
                },
                None => {},
            }
            i += 1;
        }
        proof {
            assert(ids@.take(ids@.len() as int) =~= ids@);
            assert forall|u: i64| out@.dom().contains(u) <==> self@.dom().contains(u) by {
                assert(ids@.to_set().contains(u) <==> ids@.contains(u));
            }
            assert(out@.dom() =~= self@.dom());
        }
        out
    }

    /// Per-user (message count, byte count) of currently stored mail.
    pub fn usage(&self) -> (r: HashMap<i64, (usize, usize)>)
        ensures
            exists|now: i64| usage_is(self@, r@, now),
    {
        self.usage_at(now_unix())
    }

    /// Changes for how long messages are kept, and how many a mailbox holds.
    /// Mail that is already in the store is re-dated.
    pub fn set_limits(&mut self, retention_secs: u64, per_user_cap: usize)
        ensures
            final(self)@.dom() == old(self)@.dom(),
            forall|u: i64| #[trigger]
                old(self)@.dom().contains(u) ==> is_redated(
                    old(self)@[u],
                    final(self)@[u],
                    retention_secs,
                ),
            final(self).retention() == retention_secs,
            final(self).cap() == per_user_cap,
    {
        let ids = self.user_ids();
        let ghost start = self@;
        self.retention_secs = retention_secs;
        self.per_user_cap = per_user_cap;
        let mut i: usize = 0;
        while i < ids.len()
            invariant
                i <= ids@.len(),
                lists_users(ids@, start),
                start == old(self)@,
                self.retention() == retention_secs,
                self.cap() == per_user_cap,
                self@.dom() == start.dom(),
                forall|j: int|
                    i <= j < ids@.len() ==> self@[#[trigger] ids@[j]] == start[ids@[j]],
                forall|j: int|
                    0 <= j < i ==> is_redated(
                        start[#[trigger] ids@[j]],
                        self@[ids@[j]],
                        retention_secs,
                    ),
            decreases ids@.len() - i,
        {
            let u = ids[i];
            let ghost before = self@;
            assert(self@.dom().contains(u)) by {
                assert(ids@[i as int] == u);
                assert(ids@.to_set().contains(u));
            }
            let q = self.take_box(u);
            let fresh = redate_all(&q, retention_secs);
            self.put_box(u, fresh);
            proof {
                assert(self@.dom() =~= start.dom());
                assert forall|j: int| i + 1 <= j < ids@.len() implies self@[#[trigger] ids@[j]]
                    == start[ids@[j]] by {
                    assert(ids@[j] != ids@[i as int]);
                }
                assert forall|j: int| 0 <= j < i + 1 implies is_redated(
                    start[#[trigger] ids@[j]],
                    self@[ids@[j]],
                    retention_secs,
                ) by {
                    if j < i {
                        assert(ids@[j] != ids@[i as int]);
                        assert(self@[ids@[j]] == before[ids@[j]]);
                    }
                }
            }
            i += 1;
        }
        proof {
            assert forall|u: i64| #[trigger] start.dom().contains(u) implies is_redated(
                start[u],
                self@[u],
                retention_secs,
            ) by {
                assert(ids@.to_set().contains(u));
                let j = choose|j: int| 0 <= j < ids@.len() && ids@[j] == u;
                assert(is_redated(start[ids@[j]], self@[ids@[j]], retention_secs));
            }
        }
    }
}

// ---- what holds of the store ----

/// No mailbox outgrows its capacity.
pub proof fn a_mailbox_keeps_to_its_capacity(
    q: Seq<Arc<StoredEmail>>,
    e: Arc<StoredEmail>,
    cap: usize,
)
    requires
        cap >= 1,
        q.len() <= cap,
    ensures
        with_message(q, e, cap).len() <= cap,
        q.len() < cap ==> with_message(q, e, cap) == q.push(e),
{
}

/// A message lives for the retention period, counted from its arrival.
pub proof fn a_message_lives_for_the_retention(
    q: Seq<Arc<StoredEmail>>,
    e: Arc<StoredEmail>,
    retention: u64,
    now: i64,
)
    requires
        q.contains(e),
        e.expires_at == expiry(e.received_at, retention),
        e.received_at + retention <= i64::MAX,
    ensures
        live(q, now).contains(e) <==> now < e.received_at + retention,
{
    a_listing_holds_exactly_what_is_live(q, e, now);
}

/// A message heads the listing of its mailbox from its arrival until it expires.
pub proof fn a_new_message_is_listed_first(
    q: Seq<Arc<StoredEmail>>,
    e: Arc<StoredEmail>,
    cap: usize,
    now: i64,
)
    requires
        cap >= 1,
        e.expires_at > now,
    ensures
        live(with_message(q, e, cap), now).reverse().len() > 0,
        live(with_message(q, e, cap), now).reverse()[0] == e,
{
}

/// What is listed is in the mailbox and has not expired, and of what has not
/// expired nothing is left out.
pub proof fn a_listing_holds_exactly_what_is_live(
    q: Seq<Arc<StoredEmail>>,
    e: Arc<StoredEmail>,
    now: i64,
)
    ensures
        live(q, now).contains(e) <==> q.contains(e) && e.expires_at > now,
    decreases q.len(),
{
    if q.len() > 0 {
        let before = q.drop_last();
        a_listing_holds_exactly_what_is_live(before, e, now);
        if live(before, now).contains(e) {
            let k = choose|k: int| 0 <= k < live(before, now).len() && live(before, now)[k] == e;
            assert(live(q, now)[k] == e);
        }
        if live(q, now).contains(e) && e != q.last() {
            let k = choose|k: int| 0 <= k < live(q, now).len() && live(q, now)[k] == e;
            assert(live(before, now)[k] == e);
        }
        if before.contains(e) {
            let k = choose|k: int| 0 <= k < before.len() && before[k] == e;
            assert(q[k] == e);
        }
        if q.contains(e) && e != q.last() {
            let k = choose|k: int| 0 <= k < q.len() && q[k] == e;
            assert(before[k] == e);
        }
        if e == q.last() {
            assert(q[q.len() - 1] == e);
            if e.expires_at > now {
                assert(live(q, now)[live(q, now).len() - 1] == e);
            } else {
                assert(!live(before, now).contains(e));
            }
        }
    }
}

/// Sweeping changes nothing that anyone can see: what is live later was live
/// before.
pub proof fn sweeping_keeps_what_is_live(q: Seq<Arc<StoredEmail>>, now: i64, later: i64)
    requires
        now <= later,
    ensures
        live(live(q, now), later) == live(q, later),
    decreases q.len(),
{
    if q.len() > 0 {
        let before = q.drop_last();
        sweeping_keeps_what_is_live(before, now, later);
        if q.last().expires_at > now {
            assert(live(q, now).drop_last() =~= live(before, now));
        }
    }
}

/// A message that is deleted is gone, and the others stay.
pub proof fn a_deleted_message_is_gone(
    q: Seq<Arc<StoredEmail>>,
    id: Seq<char>,
    e: Arc<StoredEmail>,
)
    ensures
        without_id(q, id).contains(e) <==> q.contains(e) && e.id@ != id,
    decreases q.len(),
{
    if q.len() > 0 {
        let before = q.drop_last();
        a_deleted_message_is_gone(before, id, e);
        if without_id(before, id).contains(e) {
            let k = choose|k: int|
                0 <= k < without_id(before, id).len() && without_id(before, id)[k] == e;
            assert(without_id(q, id)[k] == e);
        }
        if without_id(q, id).contains(e) && e != q.last() {
            let k = choose|k: int|
                0 <= k < without_id(q, id).len() && without_id(q, id)[k] == e;
            assert(without_id(before, id)[k] == e);
        }
        if before.contains(e) {
            let k = choose|k: int| 0 <= k < before.len() && before[k] == e;
            assert(q[k] == e);
        }
        if q.contains(e) && e != q.last() {
            let k = choose|k: int| 0 <= k < q.len() && q[k] == e;
            assert(before[k] == e);
        }
        if e == q.last() {
            assert(q[q.len() - 1] == e);
            if e.id@ != id {
                assert(without_id(q, id)[without_id(q, id).len() - 1] == e);
            }
        }
    }
}

/// A message that is found has the id that was asked for, belongs to the mailbox
/// and has not expired; and one is found whenever there is one.
pub proof fn lookup_is_exact(q: Seq<Arc<StoredEmail>>, id: Seq<char>, now: i64)
    ensures
        found(q, id, now) is Some ==> q.contains(found(q, id, now)->0) && found(q, id, now)->0.id@
            == id && found(q, id, now)->0.expires_at > now,
        found(q, id, now) is None ==> forall|i: int|
            0 <= i < q.len() ==> (#[trigger] q[i]).id@ != id || q[i].expires_at <= now,
    decreases q.len(),
{
    if q.len() > 0 {
        let rest = q.skip(1);
        lookup_is_exact(rest, id, now);
        if q[0].id@ == id && q[0].expires_at > now {
        } else {
            if found(q, id, now) is Some {
                let e = found(q, id, now)->0;
                let k = choose|k: int| 0 <= k < rest.len() && rest[k] == e;
                assert(q[k + 1] == e);
            } else {
                assert forall|i: int| 0 <= i < q.len() implies (#[trigger] q[i]).id@ != id
                    || q[i].expires_at <= now by {
                    if i > 0 {
                        assert(rest[i - 1] == q[i]);
                    }
                }
            }
        }
    }
}

} // verus!
