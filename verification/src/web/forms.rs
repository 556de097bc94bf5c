//! What requests carry and what answers are made of: redirects, cookies, and the
//! rules for names and passwords.

use std::collections::HashMap;

use vstd::prelude::*;
use vstd::string::*;
use vstd::utf8::*;

use crate::config::now_unix;
use crate::random::{is_alphanumeric, is_token};
use crate::settings::{lookup, stored, text_map};
use crate::state::{refreshed, session_end, user_of, Sessions, WebSession, SESSION_TTL_SECS};
use crate::text::{
    byte_len, bytes_in, chars_of, decimal, first_sep, lemma_first_sep, opt_str, opt_text, show_u64,
    skip_chars, split_any, split_at_any, starts_with, texts, trim, trimmed,
};

verus! {

pub const SESSION_COOKIE: &'static str = "svsession";

// ---- redirects ----

/// Whether a byte stands for itself in a query string.
pub open spec fn is_unreserved(b: u8) -> bool {
    ||| 65 <= b <= 90
    ||| 97 <= b <= 122
    ||| 48 <= b <= 57
    ||| b == 45
    ||| b == 95
    ||| b == 46
    ||| b == 126
}

/// A hexadecimal digit, with capital letters.
pub open spec fn hex_digit(d: nat) -> char {
    if d < 10 {
        (48 + d) as char
    } else {
        (55 + d) as char
    }
}

/// A byte in a query string.
pub open spec fn percent_byte(b: u8) -> Seq<char> {
    if is_unreserved(b) {
        seq![b as char]
    } else {
        seq!['%', hex_digit(b as nat / 16), hex_digit(b as nat % 16)]
    }
}

/// Bytes in a query string.
pub open spec fn percent_bytes(bytes: Seq<u8>) -> Seq<char>
    decreases bytes.len(),
{
    if bytes.len() == 0 {
        Seq::empty()
    } else {
        percent_bytes(bytes.drop_last()) + percent_byte(bytes.last())
    }
}

/// A text in a query string.
pub open spec fn percent_text(s: Seq<char>) -> Seq<char> {
    percent_bytes(encode_utf8(s))
}

fn hex_char(d: u8) -> (r: char)
    requires
        d < 16,
    ensures
        r == hex_digit(d as nat),
{
    if d < 10 {
        (48 + d) as char
    } else {
        (55 + d) as char
    }
}

pub fn percent_encode(s: &str) -> (r: String)
    ensures
        r@ == percent_text(s@),
{
    let bytes = s.as_bytes();
    let mut out = String::new();
    let mut i: usize = 0;
    assert(bytes@.take(0) =~= Seq::empty());
    while i < bytes.len()
        invariant
            i <= bytes@.len(),
            out@ == percent_bytes(bytes@.take(i as int)),
        decreases bytes@.len() - i,
    {
        let b = bytes[i];
        assert(bytes@.take(i + 1).drop_last() =~= bytes@.take(i as int));
        assert(bytes@.take(i + 1).last() == b);
        let ghost before = out@;
        if (65 <= b && b <= 90) || (97 <= b && b <= 122) || (48 <= b && b <= 57) || b == 45 || b
            == 95 || b == 46 || b == 126 {
            out.push(b as char);
        } else {
            out.push('%');
            out.push(hex_char(b / 16));
            out.push(hex_char(b % 16));
        }
        assert(out@ =~= before + percent_byte(b));
        i += 1;
    }
    assert(bytes@.take(bytes@.len() as int) =~= bytes@);
    out
}

/// Where a request goes next, with a word of success.
pub open spec fn ok_location(path: Seq<char>, msg: Seq<char>) -> Seq<char> {
    path + "?msg="@ + percent_text(msg)
}

/// Where a request goes next, with a word of failure.
pub open spec fn err_location(path: Seq<char>, msg: Seq<char>) -> Seq<char> {
    path + "?err="@ + percent_text(msg)
}

pub fn redirect_ok(path: &str, msg: &str) -> (r: String)
    ensures
        r@ == ok_location(path@, msg@),
{
    let mut out = path.to_string();
    out.append("?msg=");
    out.append(percent_encode(msg).as_str());
    out
}

pub fn redirect_err(path: &str, msg: &str) -> (r: String)
    ensures
        r@ == err_location(path@, msg@),
{
    let mut out = path.to_string();
    out.append("?err=");
    out.append(percent_encode(msg).as_str());
    out
}

/// The words of success and of failure in a query.
pub fn flash<'a>(q: &'a HashMap<String, String>) -> (r: (Option<&'a str>, Option<&'a str>))
    ensures
        opt_str(r.0) == stored(text_map(q@), "msg"@),
        opt_str(r.1) == stored(text_map(q@), "err"@),
{
    let ok = match lookup(q, "msg") {
        Some(v) => Some(v.as_str()),
        None => None,
    };
    let err = match lookup(q, "err") {
        Some(v) => Some(v.as_str()),
        None => None,
    };
    (ok, err)
}

// ---- cookies ----

/// The value that one piece of a `Cookie` header gives to `name`.
pub open spec fn value_in(piece: Seq<char>, name: Seq<char>) -> Option<Seq<char>> {
    if (name + "="@).is_prefix_of(trimmed(piece)) {
        Some(trimmed(piece).skip(name.len() as int + 1))
    } else {
        None
    }
}

/// The first value that the pieces of a `Cookie` header give to `name`.
pub open spec fn first_value(pieces: Seq<Seq<char>>, name: Seq<char>) -> Option<Seq<char>>
    decreases pieces.len(),
{
    if pieces.len() == 0 {
        None
    } else if value_in(pieces[0], name) is Some {
        value_in(pieces[0], name)
    } else {
        first_value(pieces.skip(1), name)
    }
}

/// The value of the cookie `name` in the text of a `Cookie` header.
pub open spec fn cookie_in(cookies: Seq<char>, name: Seq<char>) -> Option<Seq<char>> {
    first_value(split_at_any(cookies, seq![';']), name)
}

pub fn cookie_value(cookies: &str, name: &str) -> (r: Option<String>)
    ensures
        opt_text(r) == cookie_in(cookies@, name@),
{
    let seps: Vec<char> = vec![';'];
    assert(seps@ =~= seq![';']);
    let pieces = split_any(cookies, seps.as_slice());
    let ghost all = texts(pieces@);
    let mut prefix = name.to_string();
    prefix.append("=");
    proof {
        reveal_strlit("=");
    }
    let n = chars_of(prefix.as_str()).len();
    let mut i: usize = 0;
    assert(all.skip(0) =~= all);
    while i < pieces.len()
        invariant
            i <= pieces@.len(),
            all == texts(pieces@),
            all == split_at_any(cookies@, seq![';']),
            prefix@ == name@ + "="@,
            n == name@.len() + 1,
            prefix@.len() == n,
            first_value(all, name@) == first_value(all.skip(i as int), name@),
        decreases pieces@.len() - i,
    {
        assert(all.skip(i as int)[0] == pieces@[i as int]@);
        assert(all.skip(i as int).skip(1) =~= all.skip(i + 1));
        let piece = trim(pieces[i].as_str());
        if starts_with(piece.as_str(), prefix.as_str()) {
            return Some(skip_chars(piece.as_str(), n));
        }
        i += 1;
    }
    None
}

/// The session token in the text of a `Cookie` header.
pub open spec fn session_in(cookies: Option<Seq<char>>) -> Option<Seq<char>> {
    match cookies {
        Some(c) => cookie_in(c, SESSION_COOKIE@),
        None => None,
    }
}

pub fn session_token(cookies: Option<&str>) -> (r: Option<String>)
    ensures
        opt_text(r) == session_in(opt_str(cookies)),
{
    match cookies {
        Some(c) => cookie_value(c, SESSION_COOKIE),
        None => None,
    }
}

/// Whether a request with that token, made at `now`, comes from `user`, and
/// leaves the sessions as `after`.
pub open spec fn comes_from(
    before: Map<Seq<char>, WebSession>,
    token: Seq<char>,
    now: i64,
    user: Option<i64>,
    after: Map<Seq<char>, WebSession>,
) -> bool {
    user == user_of(before, token, now) && after == refreshed(before, token, now)
}

/// Who makes a request: the user whose session its cookie names.
pub fn current_user_id(sessions: &mut Sessions, cookies: Option<&str>) -> (r: Option<i64>)
    requires
        old(sessions).wf(),
    ensures
        final(sessions).wf(),
        match session_in(opt_str(cookies)) {
            Some(token) => exists|now: i64| #[trigger]
                comes_from(old(sessions)@, token, now, r, final(sessions)@),
            None => r is None && final(sessions)@ == old(sessions)@,
        },
{
    let token = match session_token(cookies) {
        Some(t) => t,
        None => return None,
    };
    let now = now_unix();
    let user = sessions.session_user_id_at(token.as_str(), now);
    assert(comes_from(old(sessions)@, token@, now, user, sessions@));
    assert(session_in(opt_str(cookies))->0 == token@);
    user
}

/// The cookie that opens a session.
pub open spec fn session_cookie(token: Seq<char>, secure: bool) -> Seq<char> {
    SESSION_COOKIE@ + "="@ + token + "; Path=/; HttpOnly; SameSite=Strict; Max-Age="@ + decimal(
        SESSION_TTL_SECS as nat,
    ) + (if secure {
        "; Secure"@
    } else {
        ""@
    })
}

fn show_session_cookie(token: &str, secure: bool) -> (r: String)
    ensures
        r@ == session_cookie(token@, secure),
{
    let mut out = SESSION_COOKIE.to_string();
    out.append("=");
    out.append(token);
    out.append("; Path=/; HttpOnly; SameSite=Strict; Max-Age=");
    out.append(show_u64(SESSION_TTL_SECS as u64).as_str());
    out.append(
        if secure {
            "; Secure"
        } else {
            ""
        },
    );
    out
}

/// A new session for a user: its token, and the cookie that carries it.
pub fn new_session(sessions: &mut Sessions, user_id: i64, secure: bool) -> (r: (String, String))
    requires
        old(sessions).wf(),
    ensures
        final(sessions).wf(),
        is_token(r.0@, 43),
        r.1@ == session_cookie(r.0@, secure),
        exists|now: i64|
            final(sessions)@ == old(sessions)@.insert(
                r.0@,
                WebSession { user_id, expires_at: #[trigger] session_end(now) },
            ),
{
    let now = now_unix();
    let token = sessions.start(user_id, now);
    let cookie = show_session_cookie(token.as_str(), secure);
    (token, cookie)
}

/// The cookie that closes a session.
pub const CLEARED_COOKIE: &'static str = "svsession=; Path=/; HttpOnly; SameSite=Strict; Max-Age=0";

/// Ends the session of a request, if it has one, and gives the cookie to set.
pub fn logout(sessions: &mut Sessions, cookies: Option<&str>) -> (r: &'static str)
    requires
        old(sessions).wf(),
    ensures
        final(sessions).wf(),
        r@ == CLEARED_COOKIE@,
        final(sessions)@ == (match session_in(opt_str(cookies)) {
            Some(token) => old(sessions)@.remove(token),
            None => old(sessions)@,
        }),
{
    if let Some(token) = session_token(cookies) {
        sessions.end(token.as_str());
    }
    CLEARED_COOKIE
}

// ---- names ----

/// Whether a character may stand in a username.
pub open spec fn is_username_char(c: char) -> bool {
    is_alphanumeric(c) || c == '_' || c == '-'
}

/// Whether a text can be a username.
pub open spec fn is_username(s: Seq<char>) -> bool {
    &&& 3 <= byte_len(s) <= 32
    &&& forall|i: int| 0 <= i < s.len() ==> is_username_char(#[trigger] s[i])
}

pub fn valid_username(s: &str) -> (r: bool)
    ensures
        r == is_username(s@),
{
    let n = bytes_in(s);
    if n < 3 || n > 32 {
        return false;
    }
    let cs = chars_of(s);
    let mut i: usize = 0;
    while i < cs.len()
        invariant
            i <= cs@.len(),
            cs@ == s@,
            forall|j: int| 0 <= j < i ==> is_username_char(#[trigger] s@[j]),
        decreases cs@.len() - i,
    {
        let c = cs[i];
        let plain = ('0' <= c && c <= '9') || ('A' <= c && c <= 'Z') || ('a' <= c && c <= 'z')
            || c == '_' || c == '-';
        if !plain {
            assert(!is_username_char(s@[i as int]));
            return false;
        }
        i += 1;
    }
    true
}

// ---- what redirects and cookies carry ----

/// The value of a hexadecimal digit with capital letters.
pub open spec fn hex_value(c: char) -> Option<nat> {
    if '0' <= c <= '9' {
        Some((c as nat - 48) as nat)
    } else if 'A' <= c <= 'F' {
        Some((c as nat - 55) as nat)
    } else {
        None
    }
}

/// The bytes that a text in a query string stands for.
pub open spec fn percent_decoded(s: Seq<char>) -> Option<Seq<u8>>
    decreases s.len(),
{
    if s.len() == 0 {
        Some(Seq::empty())
    } else if s[0] == '%' {
        if s.len() < 3 {
            None
        } else {
            match (hex_value(s[1]), hex_value(s[2]), percent_decoded(s.skip(3))) {
                (Some(high), Some(low), Some(rest)) => Some(
                    seq![(16 * high + low) as u8] + rest,
                ),
                _ => None,
            }
        }
    } else {
        match percent_decoded(s.skip(1)) {
            Some(rest) => Some(seq![s[0] as u8] + rest),
            None => None,
        }
    }
}

proof fn lemma_percent_front(bytes: Seq<u8>)
    requires
        bytes.len() > 0,
    ensures
        percent_bytes(bytes) == percent_byte(bytes[0]) + percent_bytes(bytes.skip(1)),
    decreases bytes.len(),
{
    if bytes.len() == 1 {
        assert(bytes.drop_last() =~= Seq::empty());
        assert(bytes.skip(1) =~= Seq::empty());
        assert(percent_bytes(bytes) =~= percent_byte(bytes[0]) + percent_bytes(bytes.skip(1)));
    } else {
        let front = bytes.drop_last();
        lemma_percent_front(front);
        assert(front.skip(1) =~= bytes.skip(1).drop_last());
        assert(percent_bytes(bytes) =~= percent_byte(bytes[0]) + percent_bytes(bytes.skip(1)));
    }
}

proof fn lemma_hex(d: nat)
    requires
        d < 16,
    ensures
        hex_value(hex_digit(d)) == Some(d),
{
    let c = hex_digit(d);
    if d < 10 {
        assert('0' <= c <= '9');
    } else {
        assert('A' <= c <= 'F');
    }
}

proof fn lemma_percent_reads_back(bytes: Seq<u8>)
    ensures
        percent_decoded(percent_bytes(bytes)) == Some(bytes),
    decreases bytes.len(),
{
    if bytes.len() > 0 {
        let b = bytes[0];
        let rest = bytes.skip(1);
        lemma_percent_front(bytes);
        lemma_percent_reads_back(rest);
        let s = percent_bytes(bytes);
        assert(seq![b] + rest =~= bytes);
        if is_unreserved(b) {
            assert(s[0] == b as char);
            assert(s.skip(1) =~= percent_bytes(rest));
        } else {
            let high = b as nat / 16;
            let low = b as nat % 16;
            lemma_hex(high);
            lemma_hex(low);
            assert(s[0] == '%' && s[1] == hex_digit(high) && s[2] == hex_digit(low));
            assert(s.skip(3) =~= percent_bytes(rest));
            assert(16 * high + low == b);
        }
    }
}

/// Whether a character can stand in the value of a query: it neither ends the
/// value nor the query.
pub open spec fn is_query_char(c: char) -> bool {
    c == '%' || (c <= '~' && is_unreserved(c as u8))
}

proof fn lemma_percent_is_plain(bytes: Seq<u8>)
    ensures
        forall|i: int|
            0 <= i < percent_bytes(bytes).len() ==> is_query_char(
                #[trigger] percent_bytes(bytes)[i],
            ),
    decreases bytes.len(),
{
    if bytes.len() > 0 {
        lemma_percent_is_plain(bytes.drop_last());
        let head = percent_bytes(bytes.drop_last());
        let b = bytes.last();
        let tail = percent_byte(b);
        let all = percent_bytes(bytes);
        assert forall|i: int| 0 <= i < tail.len() implies is_query_char(#[trigger] tail[i]) by {
            if !is_unreserved(b) {
                lemma_hex(b as nat / 16);
                lemma_hex(b as nat % 16);
            }
        }
        assert forall|i: int| 0 <= i < all.len() implies is_query_char(#[trigger] all[i]) by {
            if i < head.len() {
                assert(all[i] == head[i]);
            } else {
                assert(all[i] == tail[i - head.len()]);
            }
        }
    }
}

/// A message that goes into a redirect comes out of it: it decodes to the bytes
/// of its text, and holds nothing that would end the query early.
pub proof fn a_redirect_carries_its_message(msg: Seq<char>)
    ensures
        percent_decoded(percent_text(msg)) == Some(encode_utf8(msg)),
        forall|i: int|
            0 <= i < percent_text(msg).len() ==> is_query_char(#[trigger] percent_text(msg)[i]),
{
    lemma_percent_reads_back(encode_utf8(msg));
    lemma_percent_is_plain(encode_utf8(msg));
}

proof fn lemma_first_semicolon(s: Seq<char>, rest: Seq<char>)
    requires
        forall|i: int| 0 <= i < s.len() ==> #[trigger] s[i] != ';',
    ensures
        split_at_any(s, seq![';']) == seq![s],
        split_at_any(s + seq![';'] + rest, seq![';']) == seq![s] + split_at_any(rest, seq![';']),
{
    let seps = seq![';'];
    let all = s + seps + rest;
    lemma_first_sep(s, seps);
    lemma_first_sep(all, seps);
    let i = first_sep(s, seps);
    if i < s.len() {
        assert(seps.contains(s[i]));
        assert(s[i] != ';');
    }
    let j = first_sep(all, seps);
    assert(seps.contains(all[s.len() as int])) by {
        assert(all[s.len() as int] == seps[0]);
    }
    if j < s.len() {
        assert(seps.contains(all[j]));
        assert(all[j] == s[j]);
    }
    assert(j == s.len());
    assert(all.take(j) =~= s);
    assert(all.skip(j + 1) =~= rest);
}

/// The session cookie that a browser sends back names the session, whatever
/// cookies come behind it.
pub proof fn a_session_cookie_is_read_back(token: Seq<char>, rest: Seq<char>)
    requires
        is_token(token, 43),
    ensures
        session_in(Some(SESSION_COOKIE@ + "="@ + token)) == Some(token),
        session_in(Some(SESSION_COOKIE@ + "="@ + token + ";"@ + rest)) == Some(token),
{
    reveal_strlit("svsession");
    reveal_strlit("=");
    reveal_strlit(";");
    let head = SESSION_COOKIE@ + "="@;
    let s = head + token;
    assert(";"@ =~= seq![';']);
    assert forall|i: int| 0 <= i < s.len() implies #[trigger] s[i] != ';' by {
        if i >= head.len() {
            assert(s[i] == token[i - head.len()]);
            assert(is_alphanumeric(token[i - head.len()]));
        }
    }
    lemma_first_semicolon(s, rest);
    assert(s[0] == 's');
    assert(s.last() == token[42]);
    assert(is_alphanumeric(token[42]));
    assert(trimmed(s) == s);
    assert(s.subrange(0, head.len() as int) =~= head);
    assert(s.skip(head.len() as int) =~= token);
    assert(value_in(s, SESSION_COOKIE@) == Some(token));
    assert(seq![s][0] == s);
    assert((seq![s] + split_at_any(rest, seq![';']))[0] == s);
}

} // verus!
