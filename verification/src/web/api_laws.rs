//! Which messages the mail API shows, and what it says of them.

use std::sync::Arc;

use vstd::prelude::*;
use vstd::utf8::{encode_utf8, is_ascii_chars};

use crate::mailstore::{ConnKind, EmailView, StoredEmail};
use crate::mime::{attachments_of, html_parts_of, parses, text_parts_of, AttachmentPartView};
use crate::random::{is_alphanumeric, is_token};
use crate::text::{
    ascii_lower, encoded_text_reads_back, index_of, is_white, lemma_index_of, lossy, opt_text, texts, trimmed,
    unicode_lower,
};
use crate::text_laws::{
    a_text_is_split_at_its_separator, a_text_occurs_where_it_stands, is_blank, is_tight, tight_text_stays,
    trimming_takes_the_blanks_around,
};
use crate::web::api::{
    bearer_token, first_body, header_start, is_answer, is_api_token, is_folded, is_latest,
    media_type, mentions, one_mentions, selected, shown_count, token_of, Failure, Filter,
    HeaderProgress, Listing, Message, MessageSummary,
};
use crate::web::laws::a_bearer_token_is_read;
use crate::web::mail_view::header_block;

verus! {

// ---- filters ----

/// A text mentions another exactly if, in lower case, it is the other with something,
/// or nothing, before and behind it.
pub proof fn a_text_mentions_what_stands_in_it(hay: Seq<char>, needle: Seq<char>)
    ensures
        mentions(hay, needle) <==> exists|a: Seq<char>, b: Seq<char>|
            unicode_lower(hay) == #[trigger] (a + unicode_lower(needle) + b),
        is_ascii_chars(hay) ==> unicode_lower(hay) == ascii_lower(hay),
        is_ascii_chars(needle) ==> unicode_lower(needle) == ascii_lower(needle),
{
    a_text_occurs_where_it_stands(unicode_lower(needle), unicode_lower(hay));
}

/// A filter for a sender takes a message whose envelope sender has the text, and
/// one whose From header has it, whatever the other one holds, and no other.
pub proof fn a_sender_is_looked_for_in_both_places(
    filter: Filter,
    text: String,
    e: EmailView,
)
    requires
        filter.to is None,
        filter.from == Some(text),
        filter.subject is None,
    ensures
        mentions(e.mail_from, text@) && mentions(e.from_header, text@) ==> filter.accepts(e),
        mentions(e.mail_from, text@) && !mentions(e.from_header, text@) ==> filter.accepts(e),
        !mentions(e.mail_from, text@) && mentions(e.from_header, text@) ==> filter.accepts(e),
        !mentions(e.mail_from, text@) && !mentions(e.from_header, text@) ==> !filter.accepts(e),
{
}

/// The same over what the two places hold: in ASCII, a sender is found by any part
/// of either, in any case.
pub proof fn a_sender_is_found_by_any_part(
    filter: Filter,
    text: String,
    e: EmailView,
    a: Seq<char>,
    b: Seq<char>,
)
    requires
        filter.to is None,
        filter.from == Some(text),
        filter.subject is None,
        is_ascii_chars(text@),
    ensures
        is_ascii_chars(e.mail_from) && ascii_lower(e.mail_from) == a + ascii_lower(text@) + b
            ==> filter.accepts(e),
        is_ascii_chars(e.from_header) && ascii_lower(e.from_header) == a + ascii_lower(text@) + b
            ==> filter.accepts(e),
        is_ascii_chars(e.mail_from) && is_ascii_chars(e.from_header) && (forall|
            x: Seq<char>,
            y: Seq<char>,
        |
            ascii_lower(e.mail_from) != #[trigger] (x + ascii_lower(text@) + y)) && (forall|
            x: Seq<char>,
            y: Seq<char>,
        |
            ascii_lower(e.from_header) != #[trigger] (x + ascii_lower(text@) + y))
            ==> !filter.accepts(e),
{
    if is_ascii_chars(e.mail_from) {
        a_text_mentions_what_stands_in_it(e.mail_from, text@);
    }
    if is_ascii_chars(e.from_header) {
        a_text_mentions_what_stands_in_it(e.from_header, text@);
    }
}

/// A filter for a recipient takes a message that has one recipient with the text,
/// wherever in the list, and no other.
pub proof fn any_recipient_will_do(filter: Filter, text: String, e: EmailView, i: int)
    requires
        filter.to == Some(text),
        filter.from is None,
        filter.subject is None,
    ensures
        0 <= i < e.rcpt_to.len() && mentions(e.rcpt_to[i], text@) ==> filter.accepts(e),
        (forall|k: int| 0 <= k < e.rcpt_to.len() ==> !mentions(#[trigger] e.rcpt_to[k], text@))
            ==> !filter.accepts(e),
        one_mentions(e.rcpt_to, text@) <==> filter.accepts(e),
{
}

/// A filter for a subject takes a message whose subject has the text, and no
/// other.
pub proof fn a_subject_is_looked_for_in_the_subject(filter: Filter, text: String, e: EmailView)
    requires
        filter.to is None,
        filter.from is None,
        filter.subject == Some(text),
    ensures
        filter.accepts(e) <==> mentions(e.subject, text@),
{
}

/// A filter that asks for several things takes what each of them alone would take.
/// How many messages to show does not matter to it.
pub proof fn filters_add_up(filter: Filter, e: EmailView)
    ensures
        filter.accepts(e) <==> {
            &&& (Filter { from: None, subject: None, limit: None, ..filter }).accepts(e)
            &&& (Filter { to: None, subject: None, limit: None, ..filter }).accepts(e)
            &&& (Filter { to: None, from: None, limit: None, ..filter }).accepts(e)
        },
        filter.to is None && filter.from is None && filter.subject is None ==> filter.accepts(e),
{
}

/// A selection is made message by message and keeps the order.
pub proof fn a_selection_goes_message_by_message(
    a: Seq<Arc<StoredEmail>>,
    b: Seq<Arc<StoredEmail>>,
    e: Arc<StoredEmail>,
    filter: Filter,
)
    ensures
        selected(a + b, filter) == selected(a, filter) + selected(b, filter),
        filter.accepts(e@) ==> selected(seq![e], filter) == seq![e],
        !filter.accepts(e@) ==> selected(seq![e], filter) == Seq::<Arc<StoredEmail>>::empty(),
    decreases b.len(),
{
    assert(seq![e].drop_last() =~= Seq::<Arc<StoredEmail>>::empty());
    assert(selected(Seq::<Arc<StoredEmail>>::empty(), filter) =~= Seq::empty());
    assert(filter.accepts(e@) ==> selected(seq![e], filter) =~= seq![e]);
    if b.len() == 0 {
        assert(a + b =~= a);
        assert(selected(a, filter) + selected(b, filter) =~= selected(a, filter));
    } else {
        a_selection_goes_message_by_message(a, b.drop_last(), e, filter);
        assert((a + b).drop_last() =~= a + b.drop_last());
        assert((a + b).last() == b.last());
        assert(selected(a + b, filter) =~= selected(a, filter) + selected(b, filter));
    }
}

// ---- listings ----

/// A listing counts everything that passes and shows the first of it, as many as
/// were asked for.
pub proof fn a_listing_shows_as_many_as_asked(
    list: Listing,
    q: Seq<Arc<StoredEmail>>,
    filter: Filter,
    i: int,
)
    requires
        list.lists(q, filter),
        0 <= i < list.messages@.len(),
    ensures
        list.total == selected(q, filter).len(),
        list.count == list.messages@.len(),
        filter.limit is None ==> list.count == list.total,
        filter.limit matches Some(n) ==> list.count == (if n < list.total {
            n
        } else {
            list.total
        }),
        list.messages@[i].id@ == selected(q, filter)[i].id@,
{
    assert(list.messages@[i].describes(selected(q, filter)[i]@));
}

/// How many are shown: all, or as many as were asked for if that is fewer.
pub proof fn a_limit_is_kept(filter: Filter, n: nat)
    ensures
        filter.limit is None ==> shown_count(filter, n) == n,
        filter.limit matches Some(limit) ==> shown_count(filter, n) <= limit && shown_count(
            filter,
            n,
        ) <= n && (shown_count(filter, n) == limit || shown_count(filter, n) == n),
{
}

/// A summary says of a message what is stored of it.
pub proof fn a_summary_says_what_is_stored(s: MessageSummary, e: EmailView)
    requires
        s.describes(e),
    ensures
        s.id@ == e.id,
        s.subject@ == e.subject,
        s.from@ == e.from_header,
        s.mail_from@ == e.mail_from,
        texts(s.rcpt_to@) == e.rcpt_to,
        s.size == e.raw.len(),
        s.received_at == e.received_at,
        s.expires_at == e.expires_at,
        s.credential@ == e.cred_username,
        e.conn.kind == ConnKind::Plaintext ==> s.security@ == "plaintext"@,
        e.conn.kind == ConnKind::StartTls ==> s.security@ == "starttls"@,
        e.conn.kind == ConnKind::ImplicitTls ==> s.security@ == "tls"@,
        opt_text(s.tls_version) == e.conn.tls_version,
        opt_text(s.tls_cipher) == e.conn.tls_cipher,
        s.peer@ == e.conn.peer_addr,
        s.helo@ == e.conn.helo,
        s.esmtp == e.conn.esmtp,
        s.auth@ == e.conn.auth_mechanism,
{
}

/// The latest message is the first that passes, and there is none only if nothing
/// passes.
pub proof fn the_latest_is_the_first_that_passes(
    r: Result<Message, Failure>,
    before: Seq<Arc<StoredEmail>>,
    e: Arc<StoredEmail>,
    after: Seq<Arc<StoredEmail>>,
    filter: Filter,
)
    requires
        filter.accepts(e@),
        forall|i: int| 0 <= i < before.len() ==> !filter.accepts((#[trigger] before[i])@),
        is_latest(r, before + seq![e] + after, filter),
    ensures
        r is Ok,
        r->Ok_0.summary.id@ == e.id@,
        r->Ok_0.raw@ == lossy(e.raw@),
{
    lemma_nothing_passes(before, filter);
    a_selection_goes_message_by_message(before + seq![e], after, e, filter);
    a_selection_goes_message_by_message(before, seq![e], e, filter);
    assert(selected(before + seq![e] + after, filter)[0] == e);
}

proof fn lemma_nothing_passes(q: Seq<Arc<StoredEmail>>, filter: Filter)
    requires
        forall|i: int| 0 <= i < q.len() ==> !filter.accepts((#[trigger] q[i])@),
    ensures
        selected(q, filter) == Seq::<Arc<StoredEmail>>::empty(),
    decreases q.len(),
{
    if q.len() > 0 {
        let less = q.drop_last();
        assert(!filter.accepts(q[q.len() - 1]@));
        assert forall|i: int| 0 <= i < less.len() implies !filter.accepts((#[trigger] less[i])@) by {
            assert(less[i] == q[i]);
        }
        lemma_nothing_passes(less, filter);
    }
}

/// If nothing passes, and if a message is not there, the answer is that there is
/// none.
pub proof fn what_is_not_there_is_not_found(
    r: Result<Message, Failure>,
    q: Seq<Arc<StoredEmail>>,
    filter: Filter,
    e: Arc<StoredEmail>,
)
    ensures
        is_latest(r, q, filter) && (forall|i: int|
            0 <= i < q.len() ==> !filter.accepts((#[trigger] q[i])@)) ==> r is Err
            && r->Err_0.status == 404 && r->Err_0.error@ == "no message matches"@,
        is_answer(r, None) ==> r is Err && r->Err_0.status == 404 && r->Err_0.error@
            == "message not found (it may have expired)"@,
        is_answer(r, Some(e)) ==> r is Ok && r->Ok_0.summary.id@ == e.id@ && r->Ok_0.raw@ == lossy(
            e.raw@,
        ),
{
    if forall|i: int| 0 <= i < q.len() ==> !filter.accepts((#[trigger] q[i])@) {
        lemma_nothing_passes(q, filter);
    }
}

// ---- bodies and attachments ----

/// The body of a kind is the first of that kind, whatever stands before it.
pub proof fn the_first_body_of_a_kind_is_shown(
    before: Seq<(bool, Option<Seq<char>>)>,
    text: Option<Seq<char>>,
    after: Seq<(bool, Option<Seq<char>>)>,
    html: bool,
)
    requires
        forall|i: int| 0 <= i < before.len() ==> (#[trigger] before[i]).0 != html,
    ensures
        first_body(before + seq![(html, text)] + after, html) == text,
    decreases before.len(),
{
    let all = before + seq![(html, text)] + after;
    if before.len() == 0 {
        assert(all[0] == (html, text));
    } else {
        let rest = before.skip(1);
        assert(all[0] == before[0]);
        assert forall|i: int| 0 <= i < rest.len() implies (#[trigger] rest[i]).0 != html by {
            assert(rest[i] == before[i + 1]);
        }
        the_first_body_of_a_kind_is_shown(rest, text, after, html);
        assert(all.skip(1) =~= rest + seq![(html, text)] + after);
    }
}

/// A message that can be read is shown with its plain body, its HTML body and its
/// attachments; one that cannot is shown without.
pub proof fn a_message_is_shown_with_its_parts(m: Message, e: EmailView, i: int)
    requires
        m.shows(e),
        0 <= i < m.attachments@.len(),
    ensures
        m.parsed == parses(e.raw),
        parses(e.raw) ==> opt_text(m.text) == first_body(text_parts_of(e.raw), false),
        parses(e.raw) ==> opt_text(m.html) == first_body(html_parts_of(e.raw), true),
        parses(e.raw) ==> m.attachments@.len() == attachments_of(e.raw).len(),
        parses(e.raw) ==> opt_text(m.attachments@[i].filename) == attachments_of(e.raw)[i].name,
        parses(e.raw) ==> m.attachments@[i].size == attachments_of(e.raw)[i].size,
        parses(e.raw),
{
    if parses(e.raw) {
        assert(m.attachments@[i].describes(attachments_of(e.raw)[i]));
    }
}

/// A message is made of what was found in it, each kind in its place.
pub proof fn a_message_is_made_of_its_parts(
    m: Message,
    e: EmailView,
    text_parts: Seq<(bool, Option<Seq<char>>)>,
    html_parts: Seq<(bool, Option<Seq<char>>)>,
    attachments: Seq<AttachmentPartView>,
    i: int,
)
    requires
        m.renders(e, true, text_parts, html_parts, attachments),
    ensures
        m.parsed,
        opt_text(m.text) == first_body(text_parts, false),
        opt_text(m.html) == first_body(html_parts, true),
        m.attachments@.len() == attachments.len(),
        0 <= i < attachments.len() ==> {
            &&& opt_text(m.attachments@[i].filename) == attachments[i].name
            &&& opt_text(m.attachments@[i].content_type) == media_type(attachments[i])
            &&& m.attachments@[i].size == attachments[i].size
        },
        m.summary.id@ == e.id,
        m.raw@ == lossy(e.raw),
{
    if 0 <= i < attachments.len() {
        assert(m.attachments@[i].describes(attachments[i]));
    }
}

/// The same of a message that cannot be read.
pub proof fn an_unreadable_message_is_shown_raw(m: Message, e: EmailView)
    requires
        m.shows(e),
        !parses(e.raw),
    ensures
        !m.parsed,
        m.text is None,
        m.html is None,
        m.attachments@.len() == 0,
        m.raw@ == lossy(e.raw),
{
}

/// A media type is the type and the subtype, as far as they are there.
pub proof fn a_media_type_has_a_type(a: AttachmentPartView, t: Seq<char>, s: Seq<char>)
    ensures
        a.main_type == Some(t) && a.subtype == Some(s) ==> media_type(a) == Some(t + "/"@ + s),
        a.main_type == Some(t) && a.subtype is None ==> media_type(a) == Some(t),
        a.main_type is None ==> media_type(a) is None,
{
}

/// A header line is its name and its value with a colon between them; the blanks
/// around either do not count, and a line without a colon starts no header.
pub proof fn a_header_is_its_name_and_value(
    a: Seq<char>,
    name: Seq<char>,
    b: Seq<char>,
    c: Seq<char>,
    value: Seq<char>,
    d: Seq<char>,
)
    requires
        is_blank(a) && is_blank(b) && is_blank(c) && is_blank(d),
        is_tight(name),
        is_tight(value),
        forall|i: int| 0 <= i < name.len() ==> #[trigger] name[i] != ':',
    ensures
        header_start(a + name + b + seq![':'] + (c + value + d)) == Some((name, value)),
        header_start(name) is None,
{
    let head = a + name + b;
    let tail = c + value + d;
    let line = head + seq![':'] + tail;
    let n = head.len() as int;
    lemma_index_of(line, ':');
    lemma_index_of(name, ':');
    assert(line[n] == ':');
    assert forall|i: int| 0 <= i < n implies line[i] != ':' by {
        assert(line[i] == head[i]);
        if i < a.len() {
            assert(is_white(a[i]));
        } else if i < a.len() + name.len() {
            assert(head[i] == name[i - a.len()]);
        } else {
            assert(head[i] == b[i - a.len() - name.len()]);
            assert(is_white(b[i - a.len() - name.len()]));
        }
    }
    assert(index_of(line, ':') == n);
    assert(line.take(n) =~= head);
    assert(line.skip(n + 1) =~= tail);
    trimming_takes_the_blanks_around(a, name, b);
    trimming_takes_the_blanks_around(c, value, d);
    let k = index_of(name, ':');
    if k < name.len() {
        assert(name[k] == ':');
    }
}

/// The headers of a message end at its first blank line, and where there is none they
/// are the whole message.
pub proof fn headers_end_at_the_blank_line(head: Seq<char>, body: Seq<char>)
    requires
        forall|i: int| 0 <= i < head.len() ==> #[trigger] head[i] != '\r',
    ensures
        header_block(encode_utf8(head)) == head,
        header_block(encode_utf8(head + "\r\n\r\n"@ + body)) == head,
{
    reveal_strlit("\r\n\r\n");
    encoded_text_reads_back(head);
    encoded_text_reads_back(head + "\r\n\r\n"@ + body);
    a_text_is_split_at_its_separator(head, "\r\n\r\n"@, body);
    assert(head.take(head.len() as int) =~= head);
    assert((head + "\r\n\r\n"@ + body).take(head.len() as int) =~= head);
}

/// A line that begins with a blank or a tab goes on with the header above it.
pub proof fn a_blank_goes_on_with_a_header(
    line: Seq<char>,
    p: HeaderProgress,
    h: (Seq<char>, Seq<char>),
)
    ensures
        line.len() > 0 && (line[0] == ' ' || line[0] == '\t') <==> is_folded(line),
        is_folded(line) && p.current == Some(h) ==> p.with_line(line) == (HeaderProgress {
            complete: p.complete,
            current: Some((h.0, h.1 + " "@ + trimmed(line))),
        }),
        is_folded(line) && p.current is None ==> p.with_line(line) == p,
        !is_folded(line) && p.current == Some(h) ==> p.with_line(line).complete == p.complete.push(
            (h.0, trimmed(h.1)),
        ),
{
}

// ---- tokens ----

/// A bearer token goes before a token in a header of its own, which is read
/// without the blanks around it.
pub proof fn a_bearer_token_goes_first(
    scheme: Seq<char>,
    token: Seq<char>,
    a: Seq<char>,
    other: Seq<char>,
    b: Seq<char>,
    header: Option<Seq<char>>,
)
    requires
        ascii_lower(scheme) == "bearer"@,
        token.len() > 0,
        is_tight(token),
        is_blank(a),
        other.len() > 0,
        is_tight(other),
        is_blank(b),
    ensures
        token_of(Some(scheme + " "@ + token), header) == Some(token),
        token_of(None, Some(a + other + b)) == Some(other),
        token_of(None, None) is None,
        token_of(None, Some(a + b)) is None,
{
    tight_text_stays(token);
    a_bearer_token_is_read(scheme, token);
    trimming_takes_the_blanks_around(a, other, b);
    trimming_takes_the_blanks_around(a, Seq::empty(), b);
    assert(a + Seq::<char>::empty() + b =~= a + b);
}

/// What is no bearer token leaves the header of its own to be read.
pub proof fn another_scheme_is_passed_over(authorization: Seq<char>, other: Seq<char>)
    requires
        bearer_token(authorization) is None,
        other.len() > 0,
        is_tight(other),
    ensures
        token_of(Some(authorization), Some(other)) == Some(other),
        token_of(Some(authorization), None) is None,
{
    tight_text_stays(other);
}

/// An API token is forty letters and digits behind its prefix.
pub proof fn an_api_token_has_its_shape(s: Seq<char>)
    ensures
        is_api_token(s) <==> {
            &&& s.len() == 46
            &&& s.take(6) == "svapi_"@
            &&& forall|i: int| 6 <= i < s.len() ==> is_alphanumeric(#[trigger] s[i])
        },
{
    reveal_strlit("svapi_");
    if is_api_token(s) {
        let t = s.skip(6);
        assert(s.take(6) =~= "svapi_"@);
        assert forall|i: int| 6 <= i < s.len() implies is_alphanumeric(#[trigger] s[i]) by {
            assert(t[i - 6] == s[i]);
        }
    }
    if s.len() == 46 && s.take(6) == "svapi_"@ && (forall|i: int|
        6 <= i < s.len() ==> is_alphanumeric(#[trigger] s[i])) {
        let t = s.skip(6);
        assert forall|i: int| 0 <= i < t.len() implies is_alphanumeric(#[trigger] t[i]) by {
            assert(t[i] == s[i + 6]);
        }
        assert(is_token(t, 40));
        assert(s.subrange(0, 6) =~= "svapi_"@);
    }
}

} // verus!
