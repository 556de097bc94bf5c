//! What holds of every mailbox, whatever is put into it, read from it or swept
//! out of it.

use std::sync::Arc;

use vstd::prelude::*;

use crate::mailstore::{
    bytes_of, captured, expired_count, expired_weight, expiry, found, is_redated, live, mailbox,
    redated, swept, usage_is, with_message, without_id, ConnKind, ConnectionView, EmailView,
    StoredEmail,
};
use crate::mime::{parses, sender_of, shown_sender, subject_of};
use crate::tally::{listed_total, listed_total_is_total};

verus! {

// ---- capacity ----

/// Of what a mailbox holds and the message that arrives, the newest stay, as many
/// as the mailbox may hold, in the order in which they came. A mailbox that is
/// exactly full loses its oldest message and no other.
pub proof fn the_newest_messages_stay(
    q: Seq<Arc<StoredEmail>>,
    e: Arc<StoredEmail>,
    cap: usize,
)
    requires
        cap >= 1,
    ensures
        ({
            let all = q + seq![e];
            let kept = with_message(q, e, cap);
            &&& kept.len() == (if all.len() <= cap {
                all.len()
            } else {
                cap as nat
            })
            &&& kept == all.skip(all.len() - kept.len())
            &&& kept.last() == e
            &&& q.len() == cap ==> kept == q.skip(1) + seq![e]
            &&& q.len() < cap ==> kept == q + seq![e]
        }),
{
    let all = q + seq![e];
    let kept = with_message(q, e, cap);
    assert(kept =~= all.skip(all.len() - kept.len()));
    assert(q.len() == cap ==> kept =~= q.skip(1) + seq![e]);
    assert(q.len() < cap ==> kept =~= q + seq![e]);
}

/// A mailbox after the messages of a list have arrived, one after the other.
pub open spec fn after_arrivals(
    q: Seq<Arc<StoredEmail>>,
    list: Seq<Arc<StoredEmail>>,
    cap: usize,
) -> Seq<Arc<StoredEmail>>
    decreases list.len(),
{
    if list.len() == 0 {
        q
    } else {
        with_message(after_arrivals(q, list.drop_last(), cap), list.last(), cap)
    }
}

/// However many messages arrive, those that stay are the last ones of all.
pub proof fn the_last_arrivals_stay(
    q: Seq<Arc<StoredEmail>>,
    list: Seq<Arc<StoredEmail>>,
    cap: usize,
)
    requires
        cap >= 1,
        q.len() <= cap,
    ensures
        ({
            let all = q + list;
            let kept = after_arrivals(q, list, cap);
            &&& kept.len() == (if all.len() <= cap {
                all.len()
            } else {
                cap as nat
            })
            &&& kept == all.skip(all.len() - kept.len())
        }),
    decreases list.len(),
{
    let all = q + list;
    if list.len() == 0 {
        assert(all.skip(0) =~= q);
    } else {
        let shorter = list.drop_last();
        let before = after_arrivals(q, shorter, cap);
        the_last_arrivals_stay(q, shorter, cap);
        the_newest_messages_stay(before, list.last(), cap);
        let kept = after_arrivals(q, list, cap);
        assert(kept =~= all.skip(all.len() - kept.len()));
    }
}

/// A user has the mailbox that was put there for them, and an empty one before.
pub proof fn a_mailbox_is_where_it_was_put(
    m: Map<i64, Seq<Arc<StoredEmail>>>,
    user: i64,
    q: Seq<Arc<StoredEmail>>,
)
    ensures
        mailbox(m.insert(user, q), user) == q,
        mailbox(m.remove(user), user) == Seq::<Arc<StoredEmail>>::empty(),
        m.dom().contains(user) ==> mailbox(m, user) == m[user],
        !m.dom().contains(user) ==> mailbox(m, user).len() == 0,
{
}

// ---- what is listed ----

/// A listing is made message by message: of two parts of a mailbox it holds what
/// the first part lists and then what the second part lists, and a message is
/// listed while its time has not come.
pub proof fn a_listing_goes_message_by_message(
    a: Seq<Arc<StoredEmail>>,
    b: Seq<Arc<StoredEmail>>,
    e: Arc<StoredEmail>,
    now: i64,
)
    ensures
        live(a + b, now) == live(a, now) + live(b, now),
        e.expires_at > now ==> live(seq![e], now) == seq![e],
        e.expires_at <= now ==> live(seq![e], now) == Seq::<Arc<StoredEmail>>::empty(),
    decreases b.len(),
{
    assert(seq![e].drop_last() =~= Seq::<Arc<StoredEmail>>::empty());
    assert(live(Seq::<Arc<StoredEmail>>::empty(), now) =~= Seq::empty());
    assert(e.expires_at > now ==> live(seq![e], now) =~= seq![e]);
    if b.len() == 0 {
        assert(a + b =~= a);
        assert(live(a, now) + live(b, now) =~= live(a, now));
    } else {
        a_listing_goes_message_by_message(a, b.drop_last(), e, now);
        assert((a + b).drop_last() =~= a + b.drop_last());
        assert((a + b).last() == b.last());
        assert(live(a + b, now) =~= live(a, now) + live(b, now));
    }
}

/// While nothing has expired a listing is the whole mailbox, and once everything
/// has it is empty.
pub proof fn a_listing_is_whole_until_something_expires(q: Seq<Arc<StoredEmail>>, now: i64)
    ensures
        (forall|i: int| 0 <= i < q.len() ==> (#[trigger] q[i]).expires_at > now) ==> live(q, now)
            == q,
        (forall|i: int| 0 <= i < q.len() ==> (#[trigger] q[i]).expires_at <= now) ==> live(q, now)
            == Seq::<Arc<StoredEmail>>::empty(),
    decreases q.len(),
{
    if q.len() > 0 {
        let before = q.drop_last();
        a_listing_is_whole_until_something_expires(before, now);
        assert(q.last() == q[q.len() - 1]);
        if forall|i: int| 0 <= i < q.len() ==> (#[trigger] q[i]).expires_at > now {
            assert forall|i: int| 0 <= i < before.len() implies (#[trigger] before[i]).expires_at
                > now by {
                assert(before[i] == q[i]);
            }
            assert(before.push(q.last()) =~= q);
        }
        if forall|i: int| 0 <= i < q.len() ==> (#[trigger] q[i]).expires_at <= now {
            assert forall|i: int| 0 <= i < before.len() implies (#[trigger] before[i]).expires_at
                <= now by {
                assert(before[i] == q[i]);
            }
        }
    }
}

/// What the messages of a mailbox weigh is the sum of their sizes.
pub proof fn sizes_add_up(
    a: Seq<Arc<StoredEmail>>,
    b: Seq<Arc<StoredEmail>>,
    e: Arc<StoredEmail>,
)
    ensures
        bytes_of(a + b) == bytes_of(a) + bytes_of(b),
        bytes_of(seq![e]) == e.raw@.len(),
        bytes_of(Seq::empty()) == 0,
    decreases b.len(),
{
    assert(seq![e].drop_last() =~= Seq::<Arc<StoredEmail>>::empty());
    assert(bytes_of(seq![e].drop_last()) == 0);
    if b.len() == 0 {
        assert(a + b =~= a);
    } else {
        sizes_add_up(a, b.drop_last(), e);
        assert((a + b).drop_last() =~= a + b.drop_last());
    }
}

/// Usage counts what is listed, in messages and in bytes, for every user that has
/// a mailbox and for nobody else.
pub proof fn usage_counts_what_is_listed(
    m: Map<i64, Seq<Arc<StoredEmail>>>,
    usage: Map<i64, (usize, usize)>,
    user: i64,
    now: i64,
)
    requires
        usage_is(m, usage, now),
    ensures
        usage.dom().contains(user) <==> m.dom().contains(user),
        m.dom().contains(user) && m[user].len() <= usize::MAX ==> usage[user].0 == live(
            m[user],
            now,
        ).len(),
        m.dom().contains(user) && bytes_of(live(m[user], now)) <= usize::MAX ==> usage[user].1
            == bytes_of(live(m[user], now)),
        m.dom().contains(user) && bytes_of(live(m[user], now)) > usize::MAX ==> usage[user].1
            == usize::MAX,
{
    if m.dom().contains(user) {
        lemma_live_is_shorter(m[user], now);
    }
}

proof fn lemma_live_is_shorter(q: Seq<Arc<StoredEmail>>, now: i64)
    ensures
        live(q, now).len() <= q.len(),
    decreases q.len(),
{
    if q.len() > 0 {
        lemma_live_is_shorter(q.drop_last(), now);
    }
}

// ---- one message ----

/// A message is found by its id while it is live: the first one in the mailbox
/// that has the id.
pub proof fn a_live_message_is_found(
    a: Seq<Arc<StoredEmail>>,
    e: Arc<StoredEmail>,
    b: Seq<Arc<StoredEmail>>,
    now: i64,
)
    requires
        e.expires_at > now,
        forall|i: int|
            0 <= i < a.len() ==> (#[trigger] a[i]).id@ != e.id@ || a[i].expires_at <= now,
    ensures
        found(a + seq![e] + b, e.id@, now) == Some(e),
    decreases a.len(),
{
    let q = a + seq![e] + b;
    if a.len() == 0 {
        assert(q[0] == e);
    } else {
        assert(q[0] == a[0]);
        let rest = a.skip(1);
        assert forall|i: int| 0 <= i < rest.len() implies (#[trigger] rest[i]).id@ != e.id@
            || rest[i].expires_at <= now by {
            assert(rest[i] == a[i + 1]);
        }
        a_live_message_is_found(rest, e, b, now);
        assert(q.skip(1) =~= rest + seq![e] + b);
    }
}

/// Deleting takes the messages with the id away and leaves the others as they
/// are, in their order.
pub proof fn deleting_goes_message_by_message(
    a: Seq<Arc<StoredEmail>>,
    b: Seq<Arc<StoredEmail>>,
    e: Arc<StoredEmail>,
    id: Seq<char>,
)
    ensures
        without_id(a + b, id) == without_id(a, id) + without_id(b, id),
        e.id@ != id ==> without_id(seq![e], id) == seq![e],
        e.id@ == id ==> without_id(seq![e], id) == Seq::<Arc<StoredEmail>>::empty(),
    decreases b.len(),
{
    assert(seq![e].drop_last() =~= Seq::<Arc<StoredEmail>>::empty());
    assert(without_id(Seq::<Arc<StoredEmail>>::empty(), id) =~= Seq::empty());
    assert(e.id@ != id ==> without_id(seq![e], id) =~= seq![e]);
    if b.len() == 0 {
        assert(a + b =~= a);
        assert(without_id(a, id) + without_id(b, id) =~= without_id(a, id));
    } else {
        deleting_goes_message_by_message(a, b.drop_last(), e, id);
        assert((a + b).drop_last() =~= a + b.drop_last());
        assert((a + b).last() == b.last());
        assert(without_id(a + b, id) =~= without_id(a, id) + without_id(b, id));
    }
}

/// A message that is captured is kept as it came, under its id, for the retention
/// from its arrival on.
pub proof fn a_message_is_captured_as_it_came(
    id: Seq<char>,
    cred_username: Seq<char>,
    mail_from: Seq<char>,
    rcpt_to: Seq<Seq<char>>,
    raw: Seq<u8>,
    conn: ConnectionView,
    received_at: i64,
    retention: u64,
)
    ensures
        ({
            let e = captured(
                id,
                cred_username,
                mail_from,
                rcpt_to,
                raw,
                conn,
                received_at,
                retention,
            );
            &&& e.id == id && e.cred_username == cred_username && e.mail_from == mail_from
            &&& e.rcpt_to == rcpt_to && e.raw == raw && e.conn == conn
            &&& e.received_at == received_at
            &&& received_at + retention <= i64::MAX ==> e.expires_at == received_at + retention
            &&& received_at + retention > i64::MAX ==> e.expires_at == i64::MAX
            &&& !parses(raw) ==> e.subject == "(unparseable message)"@
            &&& parses(raw) && subject_of(raw) is None ==> e.subject == "(no subject)"@
            &&& parses(raw) && subject_of(raw) is Some ==> e.subject == subject_of(raw)->0
            &&& !parses(raw) || sender_of(raw) is None ==> e.from_header == "(unknown sender)"@
        }),
{
}

/// A sender is shown by their name and address, and by the address alone where
/// there is no name.
pub proof fn senders_are_shown_by_name(name: Seq<char>, address: Seq<char>)
    requires
        name.len() > 0,
    ensures
        shown_sender(true, Some((Some(name), Some(address)))) == name + " <"@ + address + ">"@,
        shown_sender(true, Some((None, Some(address)))) == address,
        shown_sender(true, Some((Some(Seq::empty()), Some(address)))) == address,
        shown_sender(true, Some((Some(name), None))) == name + " <"@ + ""@ + ">"@,
        shown_sender(true, Some((None, None))) == ""@,
{
}

/// A change of the retention moves the expiry to the new retention after the
/// arrival, as if it had been so when the message came, and changes nothing else.
pub proof fn a_new_retention_counts_from_the_arrival(e: EmailView, first: u64, second: u64)
    requires
        e.received_at + second <= i64::MAX,
    ensures
        redated(e, second).expires_at == e.received_at + second,
        redated(e, second) == (EmailView { expires_at: redated(e, second).expires_at, ..e }),
        redated(redated(e, first), second) == redated(e, second),
        expiry(e.received_at, second) == e.received_at + second,
{
}

/// Redating a mailbox keeps every message where it was.
pub proof fn redating_keeps_the_messages(
    a: Seq<Arc<StoredEmail>>,
    b: Seq<Arc<StoredEmail>>,
    retention: u64,
    i: int,
)
    requires
        is_redated(a, b, retention),
        0 <= i < a.len(),
    ensures
        b.len() == a.len(),
        b[i].id@ == a[i].id@,
        b[i].raw@ == a[i].raw@,
        b[i].received_at == a[i].received_at,
        a[i].received_at + retention <= i64::MAX ==> b[i].expires_at == a[i].received_at
            + retention,
{
    assert(b[i]@ == redated(a[i]@, retention));
    assert(b[i]@.id == b[i].id@);
    assert(b[i]@.raw == b[i].raw@);
}

/// The names of the connections.
pub proof fn connections_have_their_names()
    ensures
        ConnKind::Plaintext.label_text() == "plaintext"@,
        ConnKind::StartTls.label_text() == "STARTTLS"@,
        ConnKind::ImplicitTls.label_text() == "implicit TLS"@,
        ConnKind::Plaintext.api_text() == "plaintext"@,
        ConnKind::StartTls.api_text() == "starttls"@,
        ConnKind::ImplicitTls.api_text() == "tls"@,
{
}

// ---- sweeping ----

/// Sweeping is not seen in any listing, now or later; it leaves no message that
/// has expired and no mailbox without a message.
pub proof fn sweeping_is_not_seen(
    m: Map<i64, Seq<Arc<StoredEmail>>>,
    user: i64,
    now: i64,
    later: i64,
)
    requires
        now <= later,
    ensures
        live(mailbox(swept(m, now), user), later) == live(mailbox(m, user), later),
        mailbox(swept(m, now), user) == live(mailbox(m, user), now),
        swept(m, now).dom().contains(user) <==> live(mailbox(m, user), now).len() > 0,
{
    crate::mailstore::sweeping_keeps_what_is_live(mailbox(m, user), now, later);
    assert(live(Seq::<Arc<StoredEmail>>::empty(), now) =~= Seq::empty());
    if !swept(m, now).dom().contains(user) {
        assert(live(mailbox(m, user), now) =~= Seq::empty());
    }
}

/// The messages in all mailboxes that have expired, over the users as a list:
/// what sweeping takes out of each, added up.
pub proof fn what_sweeping_takes_adds_up(
    m: Map<i64, Seq<Arc<StoredEmail>>>,
    users: Seq<i64>,
    now: i64,
)
    requires
        users.no_duplicates(),
        users.to_set() == m.dom(),
    ensures
        expired_count(m, now) + listed_total(users, |u: i64| live(m[u], now).len())
            == listed_total(users, |u: i64| m[u].len()),
{
    listed_total_is_total(users, expired_weight(m, now));
    lemma_split_total(m, users, now);
}

proof fn lemma_split_total(m: Map<i64, Seq<Arc<StoredEmail>>>, users: Seq<i64>, now: i64)
    ensures
        listed_total(users, expired_weight(m, now)) + listed_total(
            users,
            |u: i64| live(m[u], now).len(),
        ) == listed_total(users, |u: i64| m[u].len()),
    decreases users.len(),
{
    if users.len() > 0 {
        lemma_split_total(m, users.drop_last(), now);
        lemma_live_is_shorter(m[users.last()], now);
    }
}

} // verus!
