//! What the mail API promises of the messages it shows.

use std::sync::Arc;

use vstd::prelude::*;
use vstd::utf8::{encode_utf8, is_ascii_chars};

use crate::mailstore::{
    a_new_message_is_listed_first, captured, live, mailbox, with_message, StoredEmail,
};
use crate::smtp::laws::{a_message_arrives_as_written, after_lines, message_bytes};
use crate::smtp::session::{line_turn, submission, NextView, SessionView, StageView};
use crate::text::{
    ascii_lower, ascii_upper, encoded_text_reads_back, first_place, index_of, is_white, joined,
    joined_tail, lemma_index_of, lossy, lower_char, split_at_text, texts, trimmed, trimmed_end,
    trimmed_start, unicode_lower, upper_char,
};
use crate::web::api::{
    bearer_token, first_body, header_pairs, header_progress, header_start, is_folded, is_latest,
    mentions, selected, Failure, Filter, Listing, Message,
};
use crate::web::mail_view::header_block;

verus! {

// ---- filters and listings ----

/// A filter that asks for nothing leaves every message in the listing.
pub proof fn an_empty_filter_passes_everything(q: Seq<Arc<StoredEmail>>, filter: Filter)
    requires
        filter.to is None,
        filter.from is None,
        filter.subject is None,
    ensures
        selected(q, filter) == q,
    decreases q.len(),
{
    if q.len() > 0 {
        an_empty_filter_passes_everything(q.drop_last(), filter);
        assert(q.drop_last().push(q.last()) =~= q);
    }
}

proof fn lemma_case(c: char)
    requires
        '\0' <= c <= '\u{7f}',
    ensures
        lower_char(upper_char(c)) == lower_char(c),
        '\0' <= upper_char(c) <= '\u{7f}',
{
}

proof fn lemma_lower_of_upper(s: Seq<char>)
    requires
        is_ascii_chars(s),
    ensures
        unicode_lower(ascii_upper(s)) == unicode_lower(s),
{
    assert forall|i: int| 0 <= i < s.len() implies '\0' <= #[trigger] ascii_upper(s)[i]
        <= '\u{7f}' && ascii_lower(ascii_upper(s))[i] == ascii_lower(s)[i] by {
        assert('\0' <= s[i] <= '\u{7f}');
        lemma_case(s[i]);
    }
    assert(ascii_lower(ascii_upper(s)) =~= ascii_lower(s));
}

/// Filters ignore case: capitals, in the filter or in the message, change nothing.
pub proof fn filters_ignore_case(hay: Seq<char>, needle: Seq<char>)
    ensures
        is_ascii_chars(needle) ==> mentions(hay, ascii_upper(needle)) == mentions(hay, needle),
        is_ascii_chars(hay) ==> mentions(ascii_upper(hay), needle) == mentions(hay, needle),
{
    if is_ascii_chars(needle) {
        lemma_lower_of_upper(needle);
    }
    if is_ascii_chars(hay) {
        lemma_lower_of_upper(hay);
    }
}

/// A text that stands in another one, letter for letter, is found there.
pub proof fn filters_match_substrings(before: Seq<char>, needle: Seq<char>, after: Seq<char>)
    requires
        is_ascii_chars(before + needle + after),
    ensures
        mentions(before + needle + after, needle),
{
    let hay = before + needle + after;
    assert forall|i: int| 0 <= i < needle.len() implies '\0' <= #[trigger] needle[i]
        <= '\u{7f}' by {
        assert(hay[before.len() + i] == needle[i]);
    }
    let at = before.len() as int;
    assert(ascii_lower(hay).subrange(at, at + ascii_lower(needle).len()) =~= ascii_lower(needle));
}

/// A listing leaves out nothing that passes its filter, and adds nothing.
pub proof fn a_listing_holds_exactly_what_passes(
    q: Seq<Arc<StoredEmail>>,
    filter: Filter,
    e: Arc<StoredEmail>,
)
    ensures
        selected(q, filter).contains(e) <==> q.contains(e) && filter.accepts(e@),
    decreases q.len(),
{
    if q.len() > 0 {
        let rest = q.drop_last();
        a_listing_holds_exactly_what_passes(rest, filter, e);
        assert(q =~= rest.push(q.last()));
        let s = selected(rest, filter);
        if selected(q, filter).contains(e) {
            let i = selected(q, filter).index_of(e);
            if i < s.len() {
                assert(s[i] == e);
                let k = rest.index_of(e);
                assert(q[k] == e);
            } else {
                assert(q[q.len() - 1] == e);
            }
        }
        if q.contains(e) && filter.accepts(e@) {
            let k = q.index_of(e);
            if k < rest.len() {
                assert(rest[k] == e);
                let i = s.index_of(e);
                assert(selected(q, filter)[i] == e);
            } else {
                assert(selected(q, filter)[s.len() as int] == e);
            }
        }
    }
}

/// The newest message that a filter lets through is the first one that a listing
/// with that filter shows.
pub proof fn the_latest_heads_the_listing(
    q: Seq<Arc<StoredEmail>>,
    filter: Filter,
    list: Listing,
    latest: Result<Message, Failure>,
)
    requires
        list.lists(q, filter),
        is_latest(latest, q, filter),
    ensures
        latest is Ok <==> list.total > 0,
        list.count > 0 ==> latest is Ok && latest->Ok_0.summary.id@ == list.messages@[0].id@,
{
    if list.count > 0 {
        assert(list.messages@[0].describes(selected(q, filter)[0]@));
    }
}

/// A mailbox shows what its owner was sent: what is stored for somebody else
/// leaves it as it is.
pub proof fn a_mailbox_is_its_owners(
    m: Map<i64, Seq<Arc<StoredEmail>>>,
    owner: i64,
    other: i64,
    q: Seq<Arc<StoredEmail>>,
)
    requires
        owner != other,
    ensures
        mailbox(m.insert(other, q), owner) == mailbox(m, owner),
        mailbox(m.remove(other), owner) == mailbox(m, owner),
{
}

// ---- from the SMTP session to the API ----

/// A message that a client submits is what the API shows to the account that
/// owns the credential: of a session that has received `lines`, the message `e`
/// that is stored is the newest in its owner's mailbox until it vanishes, and
/// holds these lines, the envelope and the connection of the session. Nobody
/// else's mailbox changes.
pub proof fn a_captured_message_is_the_owners_latest(
    s: SessionView,
    lines: Seq<Seq<char>>,
    e: Arc<StoredEmail>,
    store: Map<i64, Seq<Arc<StoredEmail>>>,
    cap: usize,
    retention: u64,
    now: i64,
    other: i64,
    filter: Filter,
    answer: Result<Message, Failure>,
)
    requires
        s.wf(),
        s.stage == (StageView::Data { body: Seq::empty(), oversize: false }),
        message_bytes(lines).len() <= s.max_message_size,
        ({
            let m = submission(s, message_bytes(lines));
            e@ == captured(
                e@.id,
                m.cred_username,
                m.mail_from,
                m.rcpt_to,
                m.raw,
                m.conn,
                e@.received_at,
                retention,
            )
        }),
        cap >= 1,
        e@.expires_at > now,
        filter.to is None && filter.from is None && filter.subject is None,
        is_latest(
            answer,
            live(
                mailbox(
                    store.insert(
                        s.auth->0.user_id,
                        with_message(mailbox(store, s.auth->0.user_id), e, cap),
                    ),
                    s.auth->0.user_id,
                ),
                now,
            ).reverse(),
            filter,
        ),
    ensures
        line_turn(after_lines(s, lines), "."@).next == NextView::Store(
            submission(s, message_bytes(lines)),
        ),
        answer is Ok,
        answer->Ok_0.raw@ == lossy(message_bytes(lines)),
        answer->Ok_0.summary.mail_from@ == s.mail_from->0,
        texts(answer->Ok_0.summary.rcpt_to@) == s.rcpt_to,
        answer->Ok_0.summary.credential@ == s.auth->0.cred_username,
        answer->Ok_0.summary.security@ == s.kind.api_text(),
        other != s.auth->0.user_id ==> mailbox(
            store.insert(
                s.auth->0.user_id,
                with_message(mailbox(store, s.auth->0.user_id), e, cap),
            ),
            other,
        ) == mailbox(store, other),
{
    a_message_arrives_as_written(s, lines);
    let owner = s.auth->0.user_id;
    let q = with_message(mailbox(store, owner), e, cap);
    assert(mailbox(store.insert(owner, q), owner) == q);
    a_new_message_is_listed_first(mailbox(store, owner), e, cap, now);
    an_empty_filter_passes_everything(live(q, now).reverse(), filter);
}

// ---- what a message shows ----

/// A body that is reported is a part that was in the message: text that is not
/// HTML, or HTML that is HTML.
pub proof fn a_reported_body_was_sent(parts: Seq<(bool, Option<Seq<char>>)>, html: bool)
    ensures
        match first_body(parts, html) {
            Some(t) => parts.contains((html, Some(t))),
            None => true,
        },
        (forall|i: int| 0 <= i < parts.len() ==> (#[trigger] parts[i]).0 != html) ==> first_body(
            parts,
            html,
        ) is None,
    decreases parts.len(),
{
    if parts.len() > 0 {
        let rest = parts.skip(1);
        a_reported_body_was_sent(rest, html);
        if parts[0].0 == html {
            assert(parts.contains(parts[0]));
        } else {
            if let Some(t) = first_body(rest, html) {
                let i = rest.index_of((html, Some(t)));
                assert(parts[i + 1] == (html, Some(t)));
            }
            assert forall|i: int|
                (forall|j: int| 0 <= j < parts.len() ==> (#[trigger] parts[j]).0 != html) && 0 <= i
                    < rest.len() implies (#[trigger] rest[i]).0 != html by {
                assert(rest[i] == parts[i + 1]);
            }
        }
    }
}

/// Whether a text can stand as the name of a header.
pub open spec fn is_header_name(s: Seq<char>) -> bool {
    &&& s.len() > 0
    &&& trimmed(s) == s
    &&& forall|i: int| 0 <= i < s.len() ==> #[trigger] s[i] != ':' && s[i] != '\n'
}

/// Whether a text can stand as the value of a header, on one line.
pub open spec fn is_header_value(s: Seq<char>) -> bool {
    &&& trimmed(s) == s
    &&& forall|i: int| 0 <= i < s.len() ==> #[trigger] s[i] != '\n'
}

/// A header as it is written in a message.
pub open spec fn header_line(header: (Seq<char>, Seq<char>)) -> Seq<char> {
    header.0 + ": "@ + header.1
}

pub open spec fn header_lines(headers: Seq<(Seq<char>, Seq<char>)>) -> Seq<Seq<char>> {
    headers.map_values(|h: (Seq<char>, Seq<char>)| header_line(h))
}

/// A message as it is written: its headers, a blank line, its body.
pub open spec fn written_message(
    headers: Seq<(Seq<char>, Seq<char>)>,
    body: Seq<char>,
) -> Seq<char> {
    joined(header_lines(headers), "\r\n"@) + "\r\n\r\n"@ + body
}

/// Nothing before `k` matches, so the first place is looked for from there.
proof fn lemma_first_place_skips(hay: Seq<char>, needle: Seq<char>, k: int)
    requires
        needle.len() > 0,
        0 <= k <= hay.len(),
        forall|i: int|
            0 <= i < k && i + needle.len() <= hay.len() ==> #[trigger] hay.subrange(
                i,
                i + needle.len(),
            ) != needle,
    ensures
        first_place(hay, needle) == k + first_place(hay.skip(k), needle),
    decreases k,
{
    assert(hay.skip(0) =~= hay);
    if k > 0 {
        let rest = hay.skip(1);
        assert(rest.skip(k - 1) =~= hay.skip(k));
        assert forall|i: int| 0 <= i < k - 1 && i + needle.len() <= rest.len() implies
            #[trigger] rest.subrange(i, i + needle.len()) != needle by {
            assert(rest.subrange(i, i + needle.len()) =~= hay.subrange(
                i + 1,
                i + 1 + needle.len(),
            ));
        }
        lemma_first_place_skips(rest, needle, k - 1);
        if hay.len() >= needle.len() {
            assert(hay.subrange(0int, 0int + needle.len()) != needle);
        }
    }
}

/// Whether the text is a line: it holds no line feed.
pub open spec fn is_line(s: Seq<char>) -> bool {
    forall|i: int| 0 <= i < s.len() ==> #[trigger] s[i] != '\n'
}

proof fn lemma_joined_step(lines: Seq<Seq<char>>, sep: Seq<char>)
    requires
        lines.len() > 1,
    ensures
        joined(lines, sep) == lines[0] + sep + joined(lines.skip(1), sep),
{
    let rest = lines.skip(1);
    assert(joined_tail(rest, sep) == sep + rest[0] + joined_tail(rest.skip(1), sep));
    assert(joined(lines, sep) =~= lines[0] + sep + (rest[0] + joined_tail(rest.skip(1), sep)));
}

proof fn lemma_lines_split(lines: Seq<Seq<char>>)
    requires
        lines.len() > 0,
        forall|i: int| 0 <= i < lines.len() ==> is_line(#[trigger] lines[i]),
    ensures
        split_at_text(joined(lines, "\r\n"@), "\r\n"@) == lines,
    decreases lines.len(),
{
    reveal_strlit("\r\n");
    let sep = "\r\n"@;
    let hay = joined(lines, sep);
    let n = lines[0].len() as int;
    assert(is_line(lines[0]));
    if lines.len() == 1 {
        assert(lines.skip(1) =~= Seq::empty());
        assert(hay =~= lines[0]);
        assert forall|i: int| 0 <= i < n && i + sep.len() <= hay.len() implies
            #[trigger] hay.subrange(i, i + sep.len()) != sep by {
            assert(hay.subrange(i, i + sep.len())[1] == hay[i + 1]);
        }
        lemma_first_place_skips(hay, sep, n);
        assert(split_at_text(hay, sep) =~= lines);
    } else {
        lemma_joined_step(lines, sep);
        assert forall|i: int| 0 <= i < n && i + sep.len() <= hay.len() implies
            #[trigger] hay.subrange(i, i + sep.len()) != sep by {
            assert(hay.subrange(i, i + sep.len())[1] == hay[i + 1]);
            if i + 1 < n {
                assert(hay[i + 1] == lines[0][i + 1]);
            } else {
                assert(hay[i + 1] == sep[0]);
            }
        }
        lemma_first_place_skips(hay, sep, n);
        assert(hay.skip(n).subrange(0, sep.len() as int) =~= sep);
        assert(hay.take(n) =~= lines[0]);
        assert(hay.skip(n + sep.len()) =~= joined(lines.skip(1), sep));
        lemma_lines_split(lines.skip(1));
        assert(split_at_text(hay, sep) =~= lines);
    }
}

proof fn lemma_blank_line_ends_headers(lines: Seq<Seq<char>>, body: Seq<char>)
    requires
        lines.len() > 0,
        forall|i: int|
            0 <= i < lines.len() ==> (#[trigger] lines[i]).len() > 0 && is_line(lines[i]),
    ensures
        first_place(joined(lines, "\r\n"@) + "\r\n\r\n"@ + body, "\r\n\r\n"@) == joined(
            lines,
            "\r\n"@,
        ).len(),
    decreases lines.len(),
{
    reveal_strlit("\r\n");
    reveal_strlit("\r\n\r\n");
    let sep = "\r\n"@;
    let end = "\r\n\r\n"@;
    let hay = joined(lines, sep) + end + body;
    let n = lines[0].len() as int;
    assert(is_line(lines[0]));
    if lines.len() == 1 {
        assert(lines.skip(1) =~= Seq::empty());
        assert(joined(lines, sep) =~= lines[0]);
        assert forall|i: int| 0 <= i < n && i + end.len() <= hay.len() implies
            #[trigger] hay.subrange(i, i + end.len()) != end by {
            assert(hay.subrange(i, i + end.len())[1] == hay[i + 1]);
            if i + 1 < n {
                assert(hay[i + 1] == lines[0][i + 1]);
            } else {
                assert(hay[i + 1] == end[0]);
            }
        }
        lemma_first_place_skips(hay, end, n);
        assert(hay.skip(n).subrange(0, end.len() as int) =~= end);
    } else {
        lemma_joined_step(lines, sep);
        let rest = lines.skip(1);
        let after = joined(rest, sep) + end + body;
        assert(hay =~= lines[0] + sep + after);
        assert(rest[0] == lines[1]);
        assert(is_line(rest[0]) && rest[0].len() > 0);
        let m = rest[0].len() as int;
        if rest.len() == 1 {
            assert(rest.skip(1) =~= Seq::empty());
            assert(joined(rest, sep) =~= rest[0]);
            assert(m == 1 ==> after[1] == end[0]);
        } else {
            lemma_joined_step(rest, sep);
            assert(m == 1 ==> after[1] == sep[0]);
        }
        assert(m > 1 ==> after[1] == rest[0][1]);
        assert(after[1] != '\n');
        assert forall|i: int| 0 <= i < n + 2 && i + end.len() <= hay.len() implies
            #[trigger] hay.subrange(i, i + end.len()) != end by {
            let s = hay.subrange(i, i + end.len());
            assert(s[0] == hay[i] && s[1] == hay[i + 1] && s[3] == hay[i + 3]);
            if i + 1 < n {
                assert(hay[i + 1] == lines[0][i + 1]);
            } else if i + 1 == n {
                assert(hay[i + 1] == sep[0]);
            } else if i == n {
                assert(hay[i + 3] == after[1]);
            } else {
                assert(hay[i] == sep[1]);
            }
        }
        lemma_first_place_skips(hay, end, n + 2);
        assert(hay.skip(n + 2) =~= after);
        lemma_blank_line_ends_headers(rest, body);
    }
}

/// A text without whitespace at its ends starts and ends with none.
proof fn lemma_trimmed_start_is(s: Seq<char>)
    requires
        trimmed(s) == s,
        s.len() > 0,
    ensures
        !is_white(s[0]),
{
    lemma_trimmed_shorter(s);
}

proof fn lemma_trimmed_shorter(s: Seq<char>)
    ensures
        trimmed_start(s).len() <= s.len(),
        s.len() > 0 && is_white(s[0]) ==> trimmed_start(s).len() < s.len(),
        trimmed(s).len() <= trimmed_start(s).len(),
    decreases s.len(),
{
    if s.len() > 0 && is_white(s[0]) {
        lemma_trimmed_shorter(s.skip(1));
    }
    lemma_trimmed_end_shorter(trimmed_start(s));
}

proof fn lemma_trimmed_end_shorter(s: Seq<char>)
    ensures
        trimmed_end(s).len() <= s.len(),
    decreases s.len(),
{
    if s.len() > 0 && is_white(s.last()) {
        lemma_trimmed_end_shorter(s.drop_last());
    }
}

proof fn lemma_header_line_starts_header(h: (Seq<char>, Seq<char>))
    requires
        is_header_name(h.0),
        is_header_value(h.1),
    ensures
        header_start(header_line(h)) == Some(h),
        !is_folded(header_line(h)),
        header_line(h).len() > 0,
        is_line(header_line(h)),
{
    reveal_strlit(": ");
    let line = header_line(h);
    lemma_trimmed_start_is(h.0);
    assert(line[0] == h.0[0]);
    lemma_index_of(line, ':');
    let n = h.0.len() as int;
    assert(line[n] == ':');
    assert forall|i: int| 0 <= i < n implies #[trigger] line[i] != ':' by {
        assert(line[i] == h.0[i]);
    }
    assert(index_of(line, ':') == n);
    assert(line.take(n) =~= h.0);
    let value = line.skip(n + 1);
    assert(value[0] == ' ');
    assert(value.skip(1) =~= h.1);
    assert(trimmed_start(value) == trimmed_start(h.1));
    assert forall|i: int| 0 <= i < line.len() implies #[trigger] line[i] != '\n' by {
        if i < n {
            assert(line[i] == h.0[i]);
        } else if i < n + 2 {
            assert(line[i] == ": "@[i - n]);
        } else {
            assert(line[i] == h.1[i - n - 2]);
        }
    }
}

proof fn lemma_header_lines_progress(headers: Seq<(Seq<char>, Seq<char>)>)
    requires
        forall|i: int|
            0 <= i < headers.len() ==> is_header_name((#[trigger] headers[i]).0)
                && is_header_value(headers[i].1),
    ensures
        header_progress(header_lines(headers)).finished() == headers,
    decreases headers.len(),
{
    let lines = header_lines(headers);
    if headers.len() > 0 {
        let rest = headers.drop_last();
        lemma_header_lines_progress(rest);
        assert(lines.drop_last() =~= header_lines(rest));
        let h = headers.last();
        assert(h == headers[headers.len() - 1]);
        assert(lines.last() == header_line(h));
        lemma_header_line_starts_header(h);
        assert(rest.push(h) =~= headers);
        assert((h.0, trimmed(h.1)) == h);
    }
}

/// The headers of a message are reported as they were written, in arrival order
/// and with repeated names kept.
pub proof fn headers_are_reported_as_written(
    headers: Seq<(Seq<char>, Seq<char>)>,
    body: Seq<char>,
)
    requires
        headers.len() > 0,
        forall|i: int|
            0 <= i < headers.len() ==> is_header_name((#[trigger] headers[i]).0)
                && is_header_value(headers[i].1),
    ensures
        header_pairs(encode_utf8(written_message(headers, body))) == headers,
{
    let lines = header_lines(headers);
    let text = written_message(headers, body);
    encoded_text_reads_back(text);
    assert forall|i: int| 0 <= i < lines.len() implies (#[trigger] lines[i]).len() > 0 && is_line(
        lines[i],
    ) by {
        assert(lines[i] == header_line(headers[i]));
        lemma_header_line_starts_header(headers[i]);
    }
    lemma_blank_line_ends_headers(lines, body);
    let block = joined(lines, "\r\n"@);
    assert(text.take(block.len() as int) =~= block);
    assert(header_block(encode_utf8(text)) == block);
    lemma_lines_split(lines);
    lemma_header_lines_progress(headers);
}

/// A folded line belongs to the header above it.
pub proof fn folded_lines_are_joined(
    before: Seq<Seq<char>>,
    header: (Seq<char>, Seq<char>),
    more: Seq<char>,
)
    requires
        is_header_name(header.0),
        is_header_value(header.1),
    ensures
        header_progress(before.push(header_line(header)).push(" "@ + more)).finished()
            == header_progress(before).finished().push(
            (header.0, trimmed(header.1 + " "@ + trimmed(" "@ + more))),
        ),
{
    reveal_strlit(" ");
    let one = before.push(header_line(header));
    let two = one.push(" "@ + more);
    assert(one.drop_last() =~= before);
    assert(two.drop_last() =~= one);
    assert((" "@ + more)[0] == ' ');
    lemma_header_line_starts_header(header);
    assert(one.last() == header_line(header));
    assert(two.last() == " "@ + more);
    let started = header_progress(one);
    assert(started == header_progress(before).with_line(header_line(header)));
    assert(started.current == Some(header));
    assert(header_progress(two) == started.with_line(" "@ + more));
}

/// A bearer token is read whatever the case of its scheme and the blanks round it.
pub proof fn a_bearer_token_is_read(scheme: Seq<char>, token: Seq<char>)
    requires
        ascii_lower(scheme) == "bearer"@,
        token.len() > 0,
        trimmed(token) == token,
    ensures
        bearer_token(scheme + " "@ + token) == Some(token),
{
    reveal_strlit("bearer");
    reveal_strlit("bearer ");
    reveal_strlit(" ");
    let raw = scheme + " "@ + token;
    assert(scheme.len() == 6) by {
        assert(ascii_lower(scheme).len() == scheme.len());
    }
    assert(ascii_lower(scheme)[0] == 'b');
    assert(lower_char(scheme[0]) == 'b');
    assert(raw[0] == scheme[0]);
    assert(!is_white(raw[0]));
    lemma_ends(token);
    assert(raw.last() == token.last());
    assert(trimmed(raw) == raw);
    assert(ascii_lower(raw.take(7)) =~= "bearer "@) by {
        assert forall|i: int| 0 <= i < 7 implies #[trigger] ascii_lower(raw.take(7))[i]
            == "bearer "@[i] by {
            if i < 6 {
                assert(raw.take(7)[i] == scheme[i]);
                assert(ascii_lower(scheme)[i] == "bearer"@[i]);
            } else {
                assert(raw.take(7)[i] == ' ');
            }
        }
    }
    assert(raw.skip(7) =~= token);
}

proof fn lemma_ends(s: Seq<char>)
    requires
        trimmed(s) == s,
        s.len() > 0,
    ensures
        !is_white(s[0]),
        !is_white(s.last()),
{
    lemma_trimmed_start_is(s);
    if is_white(s.last()) {
        lemma_trimmed_end_shorter(s.drop_last());
    }
}

} // verus!
