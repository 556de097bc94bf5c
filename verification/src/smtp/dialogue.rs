//! What a client gets for what it says, line by line.

use vstd::prelude::*;
use vstd::utf8::*;

use crate::bytes::{index_of_byte, lemma_index_of_byte_is};
use crate::config::time_text;
use crate::db::CredAuthView;
use crate::encoding::{
    base64_bytes, base64_decodes_what_it_encodes, base64_has_no_whitespace, base64_text,
};
use crate::mailstore::{ConnKind, ConnectionView};
use crate::smtp::command::{
    address_of, argument_of, declared_size, has_keyword, plain_credentials, verb_of,
};
use crate::smtp::laws::{
    a_message_arrives_as_written, after_lines, an_oversized_message_is_refused,
    login_credentials_are_understood, message_bytes, plain_credentials_are_understood,
    plain_payload, stuffed,
};
use crate::smtp::line::{has_line, line_bytes, MAX_LINE};
use crate::smtp::session::{
    credential_turn, fresh_plain, fresh_tls, line_turn, stored_turn, tls_turn, AuthedView,
    NextView, SessionView, StageView, SubmissionView, Turn, MAX_AUTH_FAILURES, MAX_ERRORS,
    MAX_MESSAGES_PER_CONN, MAX_RCPT,
};
use crate::text::{
    ascii_upper, decimal, decimal_reads_back, index_of, is_digit, is_white, lemma_index_of, lossy,
    trimmed, trimmed_start, unicode_upper, unsigned_number, upper_char, words,
};
use crate::text_laws::{
    blanks_do_not_count, is_blank, is_tight, tight_text_stays, trimming_takes_the_blanks_around,
    words_stand_between_blanks,
};

verus! {

// ---- how commands are written ----

/// Whether `word` is `upper`, in whatever mixture of cases. `upper` is made of
/// capitals and other ASCII characters.
pub open spec fn spells(word: Seq<char>, upper: Seq<char>) -> bool {
    ascii_upper(word) == upper
}

/// Whether a text is made of visible ASCII characters.
pub open spec fn is_visible(s: Seq<char>) -> bool {
    forall|i: int| 0 <= i < s.len() ==> '!' <= #[trigger] s[i] <= '~'
}

proof fn lemma_spelling(word: Seq<char>, upper: Seq<char>)
    requires
        spells(word, upper),
        is_visible(upper),
    ensures
        word.len() == upper.len(),
        is_visible(word),
        is_ascii_chars(word),
        is_tight(word),
        unicode_upper(word) == upper,
        forall|i: int| 0 <= i < word.len() ==> !is_white(#[trigger] word[i]) && word[i] != ' ',
{
    assert(ascii_upper(word).len() == word.len());
    assert forall|i: int| 0 <= i < word.len() implies '!' <= #[trigger] word[i] <= '~' by {
        assert(ascii_upper(word)[i] == upper_char(word[i]));
        assert('!' <= upper[i] <= '~');
    }
    assert forall|i: int| 0 <= i < word.len() implies !is_white(#[trigger] word[i]) && word[i]
        != ' ' by {
        assert('!' <= word[i] <= '~');
    }
    assert forall|i: int| 0 <= i < word.len() implies '\0' <= #[trigger] word[i] <= '\u{7f}' by {
        assert('!' <= word[i] <= '~');
    }
    if word.len() > 0 {
        assert(!is_white(word[word.len() - 1]));
    }
}

/// A command line is its verb, in any case, a blank, and its argument.
proof fn lemma_command(verb: Seq<char>, upper: Seq<char>, arg: Seq<char>)
    requires
        spells(verb, upper),
        is_visible(upper),
        upper.len() > 0,
        arg.len() > 0 ==> !is_white(arg[0]),
    ensures
        verb_of(verb + " "@ + arg) == upper,
        argument_of(verb + " "@ + arg) == arg,
        verb_of(verb) == upper,
        argument_of(verb) == Seq::<char>::empty(),
{
    reveal_strlit(" ");
    lemma_spelling(verb, upper);
    let line = verb + " "@ + arg;
    let n = verb.len() as int;
    assert(line[0] == verb[0]);
    assert(!is_white(verb[0]));
    assert(trimmed_start(line) == line);
    lemma_index_of(line, ' ');
    assert(line[n] == ' ');
    assert forall|i: int| 0 <= i < n implies line[i] != ' ' by {
        assert(line[i] == verb[i]);
    }
    assert(index_of(line, ' ') == n);
    assert(line.take(n) =~= verb);
    assert(line.skip(n + 1) =~= arg);
    assert(trimmed_start(arg) == arg);
    assert(trimmed_start(verb) == verb);
    lemma_index_of(verb, ' ');
    assert(index_of(verb, ' ') == n);
    tight_text_stays(verb);
}

/// A path: `<`, the address, `>`, and whatever parameters come behind it.
proof fn lemma_path(keyword: Seq<char>, upper: Seq<char>, addr: Seq<char>, params: Seq<char>)
    requires
        spells(keyword, upper),
        is_visible(upper),
        upper.len() > 0,
        is_tight(addr),
        forall|i: int| 0 <= i < addr.len() ==> #[trigger] addr[i] != '>',
        params.len() > 0 ==> !is_white(params.last()),
    ensures
        ({
            let path = "<"@ + addr + ">"@ + params;
            let arg = keyword + path;
            &&& trimmed(arg) == arg
            &&& !is_white(arg[0])
            &&& has_keyword(arg, upper)
            &&& arg.skip(upper.len() as int) == path
            &&& address_of(path) == Some(addr)
        }),
{
    lemma_address_in_path(addr, params);
    let path = "<"@ + addr + ">"@ + params;
    let arg = keyword + path;
    let k = keyword.len() as int;
    assert(!is_white(arg[0]) && arg.take(k) == keyword && arg.skip(k) == path) by {
        lemma_spelling(keyword, upper);
        assert(arg[0] == keyword[0]);
        assert(arg.take(k) =~= keyword);
        assert(arg.skip(k) =~= path);
    }
    assert(ascii_upper(keyword).len() == keyword.len());
    assert(arg.last() == path.last());
    tight_text_stays(arg);
}

proof fn lemma_address_in_path(addr: Seq<char>, params: Seq<char>)
    requires
        is_tight(addr),
        forall|i: int| 0 <= i < addr.len() ==> #[trigger] addr[i] != '>',
        params.len() > 0 ==> !is_white(params.last()),
    ensures
        ({
            let path = "<"@ + addr + ">"@ + params;
            &&& address_of(path) == Some(addr)
            &&& path.len() >= 2
            &&& !is_white(path.last())
        }),
{
    reveal_strlit("<");
    reveal_strlit(">");
    let path = "<"@ + addr + ">"@ + params;
    let none = Seq::<char>::empty();
    assert(none + addr + none =~= addr);
    assert(path =~= none + seq!['<'] + addr + seq!['>'] + params);
    assert(path[0] == '<');
    assert(path.last() == (if params.len() > 0 {
        params.last()
    } else {
        '>'
    }));
    a_bracketed_address_is_read(none, none, addr, none, params);
}

/// An address without brackets is read as it is written.
pub proof fn a_bare_address_is_read(addr: Seq<char>)
    requires
        addr.len() > 0,
        forall|i: int| 0 <= i < addr.len() ==> !is_white(#[trigger] addr[i]) && addr[i] != '<',
    ensures
        address_of(addr) == Some(addr),
{
    assert(!is_white(addr[addr.len() - 1]));
    tight_text_stays(addr);
    lemma_index_of(addr, '<');
    assert(index_of(addr, '<') == addr.len());
    words_stand_between_blanks(addr, ' ', Seq::empty());
}

/// An address in brackets is what stands between them, without the blanks around
/// it, whatever stands before them and behind.
pub proof fn a_bracketed_address_is_read(
    before: Seq<char>,
    a: Seq<char>,
    addr: Seq<char>,
    b: Seq<char>,
    after: Seq<char>,
)
    requires
        is_tight(before + seq!['<'] + (a + addr + b) + seq!['>'] + after),
        forall|i: int| 0 <= i < before.len() ==> #[trigger] before[i] != '<',
        is_blank(a),
        is_tight(addr),
        forall|i: int| 0 <= i < addr.len() ==> #[trigger] addr[i] != '>',
        is_blank(b),
    ensures
        address_of(before + seq!['<'] + (a + addr + b) + seq!['>'] + after) == Some(addr),
{
    let inner = a + addr + b;
    let s = before + seq!['<'] + inner + seq!['>'] + after;
    let n = before.len() as int;
    tight_text_stays(s);
    lemma_index_of(s, '<');
    assert(s[n] == '<');
    assert forall|i: int| 0 <= i < n implies s[i] != '<' by {
        assert(s[i] == before[i]);
    }
    assert(index_of(s, '<') == n);
    let tail = s.skip(n);
    let k = inner.len() as int + 1;
    lemma_index_of(tail, '>');
    assert(tail[k] == '>');
    assert forall|i: int| 0 <= i < k implies tail[i] != '>' by {
        if i > 0 {
            assert(tail[i] == inner[i - 1]);
            if i - 1 < a.len() {
                assert(inner[i - 1] == a[i - 1]);
                assert(is_white(a[i - 1]));
            } else if i - 1 < a.len() + addr.len() {
                assert(inner[i - 1] == addr[i - 1 - a.len()]);
            } else {
                assert(inner[i - 1] == b[i - 1 - a.len() - addr.len()]);
                assert(is_white(b[i - 1 - a.len() - addr.len()]));
            }
        }
    }
    assert(index_of(tail, '>') == k);
    assert(tail.subrange(1, k) =~= inner);
    trimming_takes_the_blanks_around(a, addr, b);
}

/// Without brackets the address is the first word.
pub proof fn the_first_word_is_the_address(word: Seq<char>, rest: Seq<char>)
    requires
        word.len() > 0,
        forall|i: int| 0 <= i < word.len() ==> !is_white(#[trigger] word[i]) && word[i] != '<',
        rest.len() > 0,
        is_tight(rest),
        forall|i: int| 0 <= i < rest.len() ==> #[trigger] rest[i] != '<',
    ensures
        address_of(word + seq![' '] + rest) == Some(word),
        address_of(Seq::empty()) is None,
{
    let s = word + seq![' '] + rest;
    assert(!is_white(word[0]));
    assert(s[0] == word[0]);
    assert(s.last() == rest.last());
    tight_text_stays(s);
    lemma_index_of(s, '<');
    let n = index_of(s, '<');
    if n < s.len() {
        if n < word.len() {
            assert(s[n] == word[n]);
        } else if n > word.len() {
            assert(s[n] == rest[n - word.len() - 1]);
        }
    }
    words_stand_between_blanks(word, ' ', rest);
    assert(words(s)[0] == word);
    let none = Seq::<char>::empty();
    assert(trimmed(none) =~= none);
    lemma_index_of(none, '<');
    assert(words(none) == Seq::<Seq<char>>::empty());
}

/// An opening bracket that is never closed holds no address.
pub proof fn an_open_bracket_holds_no_address(before: Seq<char>, rest: Seq<char>)
    requires
        is_tight(before + seq!['<'] + rest),
        forall|i: int| 0 <= i < before.len() ==> #[trigger] before[i] != '<',
        forall|i: int| 0 <= i < rest.len() ==> #[trigger] rest[i] != '>',
    ensures
        address_of(before + seq!['<'] + rest) is None,
{
    let s = before + seq!['<'] + rest;
    tight_text_stays(s);
    lemma_index_of(s, '<');
    let n = before.len() as int;
    assert(s[n] == '<');
    assert forall|i: int| 0 <= i < n implies s[i] != '<' by {
        assert(s[i] == before[i]);
    }
    assert(index_of(s, '<') == n);
    let tail = s.skip(n);
    assert(tail =~= seq!['<'] + rest);
    lemma_index_of(tail, '>');
    let k = index_of(tail, '>');
    if k < tail.len() {
        assert(tail[k] == '>');
        assert(k > 0 ==> tail[k] == rest[k - 1]);
    }
}

// ---- what is answered ----

/// The session goes on after one reply.
pub open spec fn goes_on(s: SessionView, reply: Seq<char>) -> Turn {
    Turn { session: s, replies: seq![reply], next: NextView::ReadLine }
}

/// The session has failed once more: the twentieth error ends it, and so does the
/// fifth failure to authenticate.
pub open spec fn fails(s: SessionView, auth: bool, reply: Seq<char>) -> Turn {
    let errors = s.errors + 1nat;
    let auth_failures = if auth {
        s.auth_failures + 1nat
    } else {
        s.auth_failures
    };
    let session = SessionView { errors, auth_failures, ..s };
    if errors >= 20 {
        Turn {
            session: SessionView { stage: StageView::Closed, ..session },
            replies: seq![reply, "421 4.7.0 Too many errors, closing connection"@],
            next: NextView::Close,
        }
    } else if auth_failures >= 5 {
        Turn {
            session: SessionView { stage: StageView::Closed, ..session },
            replies: seq![
                reply,
                "421 4.7.0 Too many authentication failures, closing connection"@,
            ],
            next: NextView::Close,
        }
    } else {
        Turn {
            session: SessionView { stage: StageView::Command, ..session },
            replies: seq![reply],
            next: NextView::ReadLine,
        }
    }
}

proof fn lemma_verbs(verb: Seq<char>)
    ensures
        is_visible("HELO"@) && is_visible("EHLO"@) && is_visible("STARTTLS"@),
        is_visible("AUTH"@) && is_visible("MAIL"@) && is_visible("RCPT"@) && is_visible("DATA"@),
        is_visible("RSET"@) && is_visible("NOOP"@) && is_visible("VRFY"@) && is_visible("HELP"@),
        is_visible("QUIT"@),
        ""@.len() == 0,
        "HELO"@.len() == 4 && "EHLO"@.len() == 4 && "STARTTLS"@.len() == 8,
        "AUTH"@.len() == 4 && "MAIL"@.len() == 4 && "RCPT"@.len() == 4 && "DATA"@.len() == 4,
        "RSET"@.len() == 4 && "NOOP"@.len() == 4 && "VRFY"@.len() == 4 && "HELP"@.len() == 4,
        "QUIT"@.len() == 4,
        "HELO"@[0] == 'H' && "HELO"@[3] == 'O',
        "EHLO"@[0] == 'E',
        "AUTH"@[0] == 'A',
        "MAIL"@[0] == 'M',
        "RCPT"@[0] == 'R' && "RCPT"@[1] == 'C',
        "DATA"@[0] == 'D',
        "RSET"@[0] == 'R' && "RSET"@[1] == 'S',
        "NOOP"@[0] == 'N',
        "VRFY"@[0] == 'V',
        "HELP"@[0] == 'H' && "HELP"@[3] == 'P',
        "QUIT"@[0] == 'Q',
{
    reveal_strlit("HELO");
    reveal_strlit("EHLO");
    reveal_strlit("STARTTLS");
    reveal_strlit("AUTH");
    reveal_strlit("MAIL");
    reveal_strlit("RCPT");
    reveal_strlit("DATA");
    reveal_strlit("RSET");
    reveal_strlit("NOOP");
    reveal_strlit("VRFY");
    reveal_strlit("HELP");
    reveal_strlit("QUIT");
    reveal_strlit("");
}

/// A client that says who it is gets the name of the server and, if it asked with
/// EHLO, what the server can do: the size limit always, STARTTLS until it is used.
/// Whatever mail it was about to send is forgotten. Blanks behind the name do not
/// count.
#[verifier::spinoff_prover]
#[verifier::rlimit(50)]
pub proof fn a_greeting_is_answered(
    s: SessionView,
    verb: Seq<char>,
    name: Seq<char>,
    blanks: Seq<char>,
)
    requires
        s.wf(),
        s.stage is Command,
        name.len() > 0,
        is_tight(name),
        is_blank(blanks),
    ensures
        spells(verb, "HELO"@) ==> line_turn(s, verb + " "@ + (name + blanks)) == goes_on(
            SessionView {
                helo: Some(name),
                esmtp: false,
                mail_from: None,
                rcpt_to: Seq::empty(),
                ..s
            },
            "250 "@ + s.hostname + " greets "@ + name,
        ),
        spells(verb, "EHLO"@) ==> {
            let t = line_turn(s, verb + " "@ + (name + blanks));
            &&& t.session == (SessionView {
                helo: Some(name),
                esmtp: true,
                mail_from: None,
                rcpt_to: Seq::empty(),
                ..s
            })
            &&& t.next == NextView::ReadLine
            &&& t.replies.len() == (if s.starttls {
                6nat
            } else {
                5nat
            })
            &&& t.replies[0] == "250-"@ + s.hostname + " greets "@ + name
            &&& t.replies[1] == "250-8BITMIME"@
            &&& t.replies[2] == "250-SIZE "@ + decimal(s.max_message_size)
            &&& s.starttls ==> t.replies[3] == "250-STARTTLS"@
            &&& t.replies[t.replies.len() - 2] == "250-AUTH PLAIN LOGIN"@
            &&& t.replies.last() == "250 ENHANCEDSTATUSCODES"@
        },
        spells(verb, "HELO"@) || spells(verb, "EHLO"@) ==> line_turn(s, verb) == fails(
            s,
            false,
            "501 5.5.4 Hostname required"@,
        ),
{
    lemma_verbs(verb);
    let none = Seq::<char>::empty();
    trimming_takes_the_blanks_around(none, name, blanks);
    assert(none + name + blanks =~= name + blanks);
    assert((name + blanks)[0] == name[0]);
    tight_text_stays(Seq::empty());
    if spells(verb, "HELO"@) {
        lemma_command(verb, "HELO"@, name + blanks);
    }
    if spells(verb, "EHLO"@) {
        lemma_command(verb, "EHLO"@, name + blanks);
    }
}

/// A sender is taken from whoever has said hello and has authenticated, unless
/// there is one already or the size that they declare is too large.
pub proof fn a_sender_is_taken(
    s: SessionView,
    verb: Seq<char>,
    from: Seq<char>,
    addr: Seq<char>,
    size: nat,
)
    requires
        s.wf(),
        s.stage is Command,
        s.helo is Some,
        s.auth is Some,
        s.mail_from is None,
        spells(verb, "MAIL"@),
        spells(from, "FROM:"@),
        is_visible(addr),
        forall|i: int| 0 <= i < addr.len() ==> #[trigger] addr[i] != '>',
    ensures
        line_turn(s, verb + " "@ + (from + ("<"@ + addr + ">"@ + ""@))) == goes_on(
            SessionView { mail_from: Some(addr), ..s },
            "250 2.1.0 Sender OK"@,
        ),
        size <= usize::MAX ==> line_turn(
            s,
            verb + " "@ + (from + ("<"@ + addr + ">"@ + (" SIZE="@ + decimal(size)))),
        ) == (if size <= s.max_message_size {
            goes_on(SessionView { mail_from: Some(addr), ..s }, "250 2.1.0 Sender OK"@)
        } else {
            fails(s, false, "552 5.3.4 Message size exceeds fixed maximum"@)
        }),
{
    reveal_strlit("");
    lemma_mail(s, verb, from, addr, ""@);
    lemma_path_declares_nothing(addr);
    if size <= usize::MAX {
        lemma_size_parameter(size);
        lemma_mail(s, verb, from, addr, " SIZE="@ + decimal(size));
        lemma_path_declares(addr, size);
    }
}

/// What a MAIL command is answered, over the size that it declares.
#[verifier::spinoff_prover]
#[verifier::rlimit(50)]
proof fn lemma_mail(
    s: SessionView,
    verb: Seq<char>,
    from: Seq<char>,
    addr: Seq<char>,
    params: Seq<char>,
)
    requires
        s.wf(),
        s.stage is Command,
        s.helo is Some,
        s.auth is Some,
        s.mail_from is None,
        spells(verb, "MAIL"@),
        spells(from, "FROM:"@),
        is_visible(addr),
        forall|i: int| 0 <= i < addr.len() ==> #[trigger] addr[i] != '>',
        params.len() > 0 ==> !is_white(params.last()),
    ensures
        line_turn(s, verb + " "@ + (from + ("<"@ + addr + ">"@ + params))) == (match declared_size(
            words("<"@ + addr + ">"@ + params),
        ) {
            Some(size) if size > s.max_message_size => fails(
                s,
                false,
                "552 5.3.4 Message size exceeds fixed maximum"@,
            ),
            _ => goes_on(SessionView { mail_from: Some(addr), ..s }, "250 2.1.0 Sender OK"@),
        }),
{
    lemma_verbs(verb);
    lemma_visible_is_tight(addr);
    reveal_strlit("FROM:");
    let path = "<"@ + addr + ">"@ + params;
    lemma_path(from, "FROM:"@, addr, params);
    lemma_command(verb, "MAIL"@, from + path);
}

proof fn lemma_path_declares_nothing(addr: Seq<char>)
    requires
        is_visible(addr),
    ensures
        declared_size(words("<"@ + addr + ">"@ + ""@)) is None,
        ""@.len() == 0,
{
    reveal_strlit("<");
    reveal_strlit("");
    let plain = "<"@ + addr + ">"@;
    assert(plain + ""@ =~= plain);
    lemma_visible_path(addr);
    words_stand_between_blanks(plain, ' ', Seq::empty());
    lemma_no_size(plain, Seq::empty());
    assert(seq![plain] =~= seq![plain] + Seq::<Seq<char>>::empty());
}

proof fn lemma_size_parameter(size: nat)
    ensures
        ({
            let param = "SIZE="@ + decimal(size);
            &&& " SIZE="@ + decimal(size) == seq![' '] + param
            &&& !is_white((" SIZE="@ + decimal(size)).last())
            &&& param.len() > 0
            &&& forall|i: int| 0 <= i < param.len() ==> !is_white(#[trigger] param[i])
        }),
{
    reveal_strlit(" SIZE=");
    reveal_strlit("SIZE=");
    decimal_reads_back(size);
    let number = decimal(size);
    let param = "SIZE="@ + number;
    assert(" SIZE="@ + number =~= seq![' '] + param);
    assert forall|i: int| 0 <= i < param.len() implies !is_white(#[trigger] param[i]) by {
        if i < 5 {
            assert(param[i] == "SIZE="@[i]);
        } else {
            assert(param[i] == number[i - 5]);
            assert(is_digit(number[i - 5]));
        }
    }
    assert((" SIZE="@ + number).last() == param[param.len() - 1]);
}

proof fn lemma_path_declares(addr: Seq<char>, size: nat)
    requires
        is_visible(addr),
        size <= usize::MAX,
    ensures
        declared_size(words("<"@ + addr + ">"@ + (" SIZE="@ + decimal(size)))) == Some(size),
{
    reveal_strlit("<");
    let plain = "<"@ + addr + ">"@;
    let number = decimal(size);
    let param = "SIZE="@ + number;
    lemma_size_parameter(size);
    lemma_visible_path(addr);
    assert(plain + (" SIZE="@ + number) =~= plain + seq![' '] + param);
    words_stand_between_blanks(plain, ' ', param);
    words_stand_between_blanks(param, ' ', Seq::empty());
    lemma_no_size(plain, seq![param]);
    lemma_size_is_read(param, number, size);
}

proof fn lemma_visible_is_tight(s: Seq<char>)
    requires
        is_visible(s),
    ensures
        is_tight(s),
        forall|i: int| 0 <= i < s.len() ==> !is_white(#[trigger] s[i]),
{
    assert forall|i: int| 0 <= i < s.len() implies !is_white(#[trigger] s[i]) by {
        assert('!' <= s[i] <= '~');
    }
    if s.len() > 0 {
        assert(!is_white(s[s.len() - 1]));
    }
}

proof fn lemma_visible_path(addr: Seq<char>)
    requires
        is_visible(addr),
    ensures
        is_visible("<"@ + addr + ">"@),
        forall|i: int|
            0 <= i < ("<"@ + addr + ">"@).len() ==> !is_white(#[trigger] ("<"@ + addr + ">"@)[i]),
{
    reveal_strlit("<");
    reveal_strlit(">");
    let path = "<"@ + addr + ">"@;
    assert forall|i: int| 0 <= i < path.len() implies '!' <= #[trigger] path[i] <= '~' by {
        if 1 <= i < path.len() - 1 {
            assert(path[i] == addr[i - 1]);
        }
    }
    lemma_visible_is_tight(path);
}

proof fn lemma_no_size(first: Seq<char>, rest: Seq<Seq<char>>)
    requires
        is_visible(first),
        first.len() > 0,
        first[0] == '<',
    ensures
        declared_size(seq![first] + rest) == declared_size(rest),
{
    reveal_strlit("SIZE=");
    let all = seq![first] + rest;
    assert(all.skip(1) =~= rest);
    assert forall|i: int| 0 <= i < first.len() implies '\0' <= #[trigger] first[i] <= '\u{7f}' by {
        assert('!' <= first[i] <= '~');
    }
    let p = unicode_upper(first);
    assert(p == ascii_upper(first));
    assert(p[0] == '<');
    if "SIZE="@.is_prefix_of(p) {
        assert(p.subrange(0, 5)[0] == "SIZE="@[0]);
    }
}

proof fn lemma_size_is_read(param: Seq<char>, number: Seq<char>, size: nat)
    requires
        param == "SIZE="@ + number,
        number == decimal(size),
        size <= usize::MAX,
    ensures
        declared_size(seq![param]) == Some(size),
{
    reveal_strlit("SIZE=");
    decimal_reads_back(size);
    assert forall|i: int| 0 <= i < param.len() implies '\0' <= #[trigger] param[i] <= '\u{7f}'
        && upper_char(param[i]) == param[i] by {
        if i < 5 {
            assert(param[i] == "SIZE="@[i]);
        } else {
            assert(param[i] == number[i - 5]);
            assert(is_digit(number[i - 5]));
        }
    }
    assert(unicode_upper(param) =~= param);
    assert(param.subrange(0, 5) =~= "SIZE="@);
    assert(param.skip(5) =~= number);
    assert(unsigned_number(number) == Some(size));
}

/// Up to fifty recipients are taken for a sender, each as it was written and in
/// the order in which they came.
#[verifier::spinoff_prover]
#[verifier::rlimit(50)]
pub proof fn a_recipient_is_taken(
    s: SessionView,
    verb: Seq<char>,
    to: Seq<char>,
    addr: Seq<char>,
    params: Seq<char>,
)
    requires
        s.wf(),
        s.stage is Command,
        s.mail_from is Some,
        spells(verb, "RCPT"@),
        spells(to, "TO:"@),
        addr.len() > 0,
        is_tight(addr),
        forall|i: int| 0 <= i < addr.len() ==> #[trigger] addr[i] != '>',
        params.len() > 0 ==> !is_white(params.last()),
    ensures
        line_turn(s, verb + " "@ + (to + ("<"@ + addr + ">"@ + params))) == (if s.rcpt_to.len() < 50 {
            goes_on(
                SessionView { rcpt_to: s.rcpt_to + seq![addr], ..s },
                "250 2.1.5 Recipient OK (message will be captured, never delivered)"@,
            )
        } else {
            fails(s, false, "452 4.5.3 Too many recipients"@)
        }),
{
    lemma_verbs(verb);
    reveal_strlit("TO:");
    lemma_path(to, "TO:"@, addr, params);
    lemma_command(verb, "RCPT"@, to + ("<"@ + addr + ">"@ + params));
    assert(s.rcpt_to + seq![addr] =~= s.rcpt_to.push(addr));
}

/// However an address is written, the one that is read is taken.
#[verifier::spinoff_prover]
pub proof fn an_address_is_taken_as_read(
    s: SessionView,
    verb: Seq<char>,
    keyword: Seq<char>,
    rest: Seq<char>,
    addr: Seq<char>,
)
    requires
        s.wf(),
        s.stage is Command,
        rest.len() > 0,
        !is_white(rest.last()),
        address_of(rest) == Some(addr),
    ensures
        spells(verb, "RCPT"@) && spells(keyword, "TO:"@) && s.mail_from is Some && addr.len() > 0
            && s.rcpt_to.len() < 50 ==> line_turn(s, verb + " "@ + (keyword + rest)) == goes_on(
            SessionView { rcpt_to: s.rcpt_to + seq![addr], ..s },
            "250 2.1.5 Recipient OK (message will be captured, never delivered)"@,
        ),
        spells(verb, "MAIL"@) && spells(keyword, "FROM:"@) && s.helo is Some && s.auth is Some
            && s.mail_from is None && declared_size(words(rest)) is None ==> line_turn(
            s,
            verb + " "@ + (keyword + rest),
        ) == goes_on(SessionView { mail_from: Some(addr), ..s }, "250 2.1.0 Sender OK"@),
{
    lemma_verbs(verb);
    reveal_strlit("FROM:");
    reveal_strlit("TO:");
    let arg = keyword + rest;
    assert(arg.last() == rest.last());
    if spells(verb, "MAIL"@) && spells(keyword, "FROM:"@) {
        lemma_spelling(keyword, "FROM:"@);
        assert(arg[0] == keyword[0]);
        assert(!is_white(keyword[0]));
        tight_text_stays(arg);
        assert(arg.take(5) =~= keyword);
        assert(arg.skip(5) =~= rest);
        lemma_command(verb, "MAIL"@, arg);
    }
    if spells(verb, "RCPT"@) && spells(keyword, "TO:"@) {
        lemma_spelling(keyword, "TO:"@);
        assert(arg[0] == keyword[0]);
        assert(!is_white(keyword[0]));
        tight_text_stays(arg);
        assert(arg.take(3) =~= keyword);
        assert(arg.skip(3) =~= rest);
        lemma_command(verb, "RCPT"@, arg);
        assert(s.rcpt_to + seq![addr] =~= s.rcpt_to.push(addr));
    }
}

/// Blanks before a command do not count, nor do further blanks between a command and
/// its argument.
pub proof fn blanks_around_a_verb_do_not_count(
    a: Seq<char>,
    line: Seq<char>,
    verb: Seq<char>,
    b: Seq<char>,
    arg: Seq<char>,
)
    requires
        is_blank(a),
        is_blank(b),
        forall|i: int| 0 <= i < verb.len() ==> !is_white(#[trigger] verb[i]),
        verb.len() > 0,
    ensures
        verb_of(a + line) == verb_of(line),
        argument_of(a + line) == argument_of(line),
        argument_of(verb + " "@ + (b + arg)) == trimmed_start(arg),
        verb_of(verb + " "@ + (b + arg)) == unicode_upper(verb),
{
    reveal_strlit(" ");
    blanks_do_not_count(a, line, b);
    blanks_do_not_count(b, arg, b);
    let s = verb + " "@ + (b + arg);
    let n = verb.len() as int;
    assert(s[0] == verb[0]);
    assert(!is_white(verb[0]));
    lemma_index_of(s, ' ');
    assert(s[n] == ' ');
    assert forall|i: int| 0 <= i < n implies s[i] != ' ' by {
        assert(s[i] == verb[i]);
        assert(!is_white(verb[i]));
    }
    assert(index_of(s, ' ') == n);
    assert(s.take(n) =~= verb);
    assert(s.skip(n + 1) =~= b + arg);
}

/// The session after the client has said `lines`, one after the other.
pub open spec fn after_saying(s: SessionView, lines: Seq<Seq<char>>) -> SessionView
    decreases lines.len(),
{
    if lines.len() == 0 {
        s
    } else {
        after_line(after_saying(s, lines.drop_last()), lines.last())
    }
}

/// The session after the client has said `line`.
#[verifier::opaque]
pub open spec fn after_line(s: SessionView, line: Seq<char>) -> SessionView {
    line_turn(s, line).session
}

proof fn lemma_after_recipient(s: SessionView, addr: Seq<char>)
    requires
        s.wf(),
        s.stage is Command,
        s.mail_from is Some,
        s.rcpt_to.len() < 50,
        is_address(addr),
    ensures
        after_line(s, "RCPT"@ + " "@ + ("TO:"@ + ("<"@ + addr + ">"@ + ""@))) == (SessionView {
            rcpt_to: s.rcpt_to + seq![addr],
            ..s
        }),
{
    reveal(after_line);
    lemma_spells_itself();
    a_recipient_is_taken(s, "RCPT"@, "TO:"@, addr, ""@);
}

proof fn lemma_after_sender(s: SessionView, addr: Seq<char>)
    requires
        s.wf(),
        s.stage is Command,
        s.helo is Some,
        s.auth is Some,
        s.mail_from is None,
        is_visible(addr),
        forall|i: int| 0 <= i < addr.len() ==> #[trigger] addr[i] != '>',
    ensures
        after_line(s, "MAIL"@ + " "@ + ("FROM:"@ + ("<"@ + addr + ">"@ + ""@))) == (SessionView {
            mail_from: Some(addr),
            ..s
        }),
{
    reveal(after_line);
    lemma_spells_itself();
    a_sender_is_taken(s, "MAIL"@, "FROM:"@, addr, 0);
}

proof fn lemma_after_data(s: SessionView)
    requires
        s.wf(),
        s.stage is Command,
        s.rcpt_to.len() > 0,
        s.messages < 100,
    ensures
        after_line(s, "DATA"@) == (SessionView {
            stage: StageView::Data { body: Seq::empty(), oversize: false },
            ..s
        }),
{
    reveal(after_line);
    lemma_spells_itself();
    a_message_is_asked_for(s, "DATA"@);
}

/// The lines that name the recipients, one each.
pub open spec fn recipient_lines(addrs: Seq<Seq<char>>) -> Seq<Seq<char>> {
    addrs.map_values(|a: Seq<char>| "RCPT"@ + " "@ + ("TO:"@ + ("<"@ + a + ">"@ + ""@)))
}

/// Whether a text can stand between the brackets of a path.
pub open spec fn is_address(a: Seq<char>) -> bool {
    &&& a.len() > 0
    &&& is_tight(a)
    &&& forall|i: int| 0 <= i < a.len() ==> #[trigger] a[i] != '>'
}

proof fn lemma_spells_itself()
    ensures
        spells("RCPT"@, "RCPT"@),
        spells("TO:"@, "TO:"@),
        spells("MAIL"@, "MAIL"@),
        spells("FROM:"@, "FROM:"@),
        spells("DATA"@, "DATA"@),
        spells("EHLO"@, "EHLO"@),
        spells("AUTH"@, "AUTH"@),
        ""@ == Seq::<char>::empty(),
{
    reveal_strlit("RCPT");
    reveal_strlit("TO:");
    reveal_strlit("MAIL");
    reveal_strlit("FROM:");
    reveal_strlit("DATA");
    reveal_strlit("EHLO");
    reveal_strlit("AUTH");
    reveal_strlit("");
    assert(ascii_upper("RCPT"@) =~= "RCPT"@);
    assert(ascii_upper("TO:"@) =~= "TO:"@);
    assert(ascii_upper("MAIL"@) =~= "MAIL"@);
    assert(ascii_upper("FROM:"@) =~= "FROM:"@);
    assert(ascii_upper("DATA"@) =~= "DATA"@);
    assert(ascii_upper("EHLO"@) =~= "EHLO"@);
    assert(ascii_upper("AUTH"@) =~= "AUTH"@);
    assert(""@ =~= Seq::<char>::empty());
}

/// A client that names several recipients has all of them on the envelope, in
/// order, and nothing else of the session changes.
#[verifier::spinoff_prover]
#[verifier::rlimit(50)]
pub proof fn every_recipient_is_kept(s: SessionView, addrs: Seq<Seq<char>>)
    requires
        s.wf(),
        s.stage is Command,
        s.mail_from is Some,
        s.rcpt_to.len() + addrs.len() <= 50,
        forall|i: int| 0 <= i < addrs.len() ==> is_address(#[trigger] addrs[i]),
    ensures
        after_saying(s, recipient_lines(addrs)) == (SessionView {
            rcpt_to: s.rcpt_to + addrs,
            ..s
        }),
        after_saying(s, recipient_lines(addrs)).wf(),
    decreases addrs.len(),
{
    let lines = recipient_lines(addrs);
    if addrs.len() == 0 {
        assert(s.rcpt_to + addrs =~= s.rcpt_to);
    } else {
        let before = addrs.drop_last();
        assert(lines.drop_last() =~= recipient_lines(before));
        assert forall|i: int| 0 <= i < before.len() implies is_address(#[trigger] before[i]) by {
            assert(before[i] == addrs[i]);
        }
        every_recipient_is_kept(s, before);
        let t = after_saying(s, lines.drop_last());
        let a = addrs.last();
        assert(is_address(addrs[addrs.len() - 1]));
        lemma_after_recipient(t, a);
        assert(lines.last() == "RCPT"@ + " "@ + ("TO:"@ + ("<"@ + a + ">"@ + ""@)));
        assert(s.rcpt_to + before + seq![a] =~= s.rcpt_to + addrs);
    }
}

/// What comes out of order is refused, and changes nothing but the count of
/// errors: a sender before a greeting, before authentication or after another
/// sender; a recipient before a sender; a message before a recipient, or after a
/// hundred messages.
#[verifier::spinoff_prover]
#[verifier::rlimit(50)]
pub proof fn commands_out_of_order_are_refused(s: SessionView, verb: Seq<char>, arg: Seq<char>)
    requires
        s.wf(),
        s.stage is Command,
        arg.len() > 0 ==> !is_white(arg[0]),
    ensures
        spells(verb, "MAIL"@) && s.helo is None ==> line_turn(s, verb + " "@ + arg) == fails(
            s,
            false,
            "503 5.5.1 Send HELO/EHLO first"@,
        ),
        spells(verb, "MAIL"@) && s.helo is Some && s.auth is None ==> line_turn(
            s,
            verb + " "@ + arg,
        ) == fails(
            s,
            false,
            "530 5.7.0 Authentication required (create SMTP credentials in the web UI)"@,
        ),
        spells(verb, "MAIL"@) && s.mail_from is Some ==> line_turn(s, verb + " "@ + arg) == fails(
            s,
            false,
            "503 5.5.1 Nested MAIL command"@,
        ),
        spells(verb, "RCPT"@) && s.mail_from is None ==> line_turn(s, verb + " "@ + arg) == fails(
            s,
            false,
            "503 5.5.1 Need MAIL command first"@,
        ),
        spells(verb, "DATA"@) && s.rcpt_to.len() == 0 ==> line_turn(s, verb) == fails(
            s,
            false,
            "503 5.5.1 Need MAIL and RCPT first"@,
        ),
        spells(verb, "DATA"@) && s.rcpt_to.len() > 0 && s.messages == 100 ==> line_turn(s, verb)
            == fails(s, false, "452 4.5.3 Too many messages in one connection"@),
{
    lemma_verbs(verb);
    if spells(verb, "MAIL"@) {
        lemma_command(verb, "MAIL"@, arg);
    }
    if spells(verb, "RCPT"@) {
        lemma_command(verb, "RCPT"@, arg);
    }
    if spells(verb, "DATA"@) {
        lemma_command(verb, "DATA"@, arg);
    }
}

/// A client with a sender and a recipient, and fewer than a hundred messages so
/// far, may send its message.
pub proof fn a_message_is_asked_for(s: SessionView, verb: Seq<char>)
    requires
        s.wf(),
        s.stage is Command,
        spells(verb, "DATA"@),
        s.rcpt_to.len() > 0,
        s.messages < 100,
    ensures
        line_turn(s, verb) == goes_on(
            SessionView { stage: StageView::Data { body: Seq::empty(), oversize: false }, ..s },
            "354 End data with <CR><LF>.<CR><LF>"@,
        ),
{
    lemma_verbs(verb);
    lemma_command(verb, "DATA"@, Seq::empty());
}

/// A message that was stored is confirmed with its id and the time at which it
/// vanishes, and counts towards the hundred.
pub proof fn a_stored_message_is_confirmed(s: SessionView, id: Seq<char>, expires_at: i64)
    requires
        s.wf(),
        s.stage is Storing,
    ensures
        stored_turn(s, id, expires_at) == goes_on(
            SessionView { messages: s.messages + 1nat, stage: StageView::Command, ..s },
            "250 2.0.0 OK: captured as "@ + id + " - it will vanish at "@ + time_text(expires_at)
                + " and is never delivered"@,
        ),
{
}

/// RSET forgets the mail that the client was about to send, and nothing else. The
/// commands that only ask change nothing, and QUIT ends the session.
#[verifier::spinoff_prover]
#[verifier::rlimit(50)]
pub proof fn the_plain_commands_do_what_they_say(s: SessionView, verb: Seq<char>)
    requires
        s.wf(),
        s.stage is Command,
    ensures
        spells(verb, "RSET"@) ==> line_turn(s, verb) == goes_on(
            SessionView { mail_from: None, rcpt_to: Seq::empty(), ..s },
            "250 2.0.0 OK"@,
        ),
        spells(verb, "NOOP"@) ==> line_turn(s, verb) == goes_on(s, "250 2.0.0 OK"@),
        spells(verb, "VRFY"@) ==> line_turn(s, verb) == goes_on(
            s,
            "252 2.1.5 Cannot VRFY, but the void accepts everyone"@,
        ),
        spells(verb, "HELP"@) ==> line_turn(s, verb) == goes_on(
            s,
            "214 2.0.0 This is SMTPVoid; messages are stored briefly and never delivered"@,
        ),
        spells(verb, "QUIT"@) ==> line_turn(s, verb) == (Turn {
            session: SessionView { stage: StageView::Closed, ..s },
            replies: seq!["221 2.0.0 "@ + s.hostname + " closing connection"@],
            next: NextView::Close,
        }),
{
    lemma_verbs(verb);
    let none = Seq::<char>::empty();
    if spells(verb, "RSET"@) {
        lemma_command(verb, "RSET"@, none);
    }
    if spells(verb, "NOOP"@) {
        lemma_command(verb, "NOOP"@, none);
    }
    if spells(verb, "VRFY"@) {
        lemma_command(verb, "VRFY"@, none);
    }
    if spells(verb, "HELP"@) {
        lemma_command(verb, "HELP"@, none);
    }
    if spells(verb, "QUIT"@) {
        lemma_command(verb, "QUIT"@, none);
    }
}

/// What stands behind a command that takes no argument does not matter.
#[verifier::spinoff_prover]
pub proof fn needless_arguments_do_not_matter(
    s: SessionView,
    verb: Seq<char>,
    upper: Seq<char>,
    arg: Seq<char>,
)
    requires
        s.wf(),
        s.stage is Command,
        spells(verb, upper),
        upper == "STARTTLS"@ || upper == "DATA"@ || upper == "RSET"@ || upper == "NOOP"@ || upper
            == "VRFY"@ || upper == "HELP"@ || upper == "QUIT"@,
        arg.len() > 0 ==> !is_white(arg[0]),
    ensures
        line_turn(s, verb + " "@ + arg) == line_turn(s, verb),
{
    lemma_verbs(verb);
    reveal_strlit("STARTTLS");
    lemma_command(verb, upper, arg);
}

/// A command that needs an argument and has none is refused.
#[verifier::spinoff_prover]
pub proof fn a_command_needs_its_argument(s: SessionView, verb: Seq<char>)
    requires
        s.wf(),
        s.stage is Command,
    ensures
        spells(verb, "MAIL"@) && s.helo is Some && s.auth is Some && s.mail_from is None
            ==> line_turn(s, verb) == fails(s, false, "501 5.5.4 Syntax: MAIL FROM:<address>"@),
        spells(verb, "RCPT"@) && s.mail_from is Some ==> line_turn(s, verb) == fails(
            s,
            false,
            "501 5.5.4 Syntax: RCPT TO:<address>"@,
        ),
        spells(verb, "AUTH"@) && s.auth is None ==> line_turn(s, verb) == fails(
            s,
            false,
            "504 5.5.4 Unrecognized authentication type"@,
        ),
{
    lemma_verbs(verb);
    let none = Seq::<char>::empty();
    reveal_strlit("FROM:");
    reveal_strlit("TO:");
    reveal_strlit("PLAIN");
    reveal_strlit("LOGIN");
    tight_text_stays(none);
    if spells(verb, "MAIL"@) {
        lemma_command(verb, "MAIL"@, none);
    }
    if spells(verb, "RCPT"@) {
        lemma_command(verb, "RCPT"@, none);
    }
    if spells(verb, "AUTH"@) {
        lemma_command(verb, "AUTH"@, none);
        lemma_index_of(none, ' ');
        assert(none.take(0) =~= none);
        assert(unicode_upper(none) =~= none);
    }
}

/// A word that is no command is refused, and so is an empty line.
#[verifier::spinoff_prover]
#[verifier::rlimit(50)]
pub proof fn what_is_no_command_is_refused(s: SessionView, word: Seq<char>)
    requires
        s.wf(),
        s.stage is Command,
        is_visible(word),
        !spells(word, "HELO"@),
        !spells(word, "EHLO"@),
        !spells(word, "STARTTLS"@),
        !spells(word, "AUTH"@),
        !spells(word, "MAIL"@),
        !spells(word, "RCPT"@),
        !spells(word, "DATA"@),
        !spells(word, "RSET"@),
        !spells(word, "NOOP"@),
        !spells(word, "VRFY"@),
        !spells(word, "HELP"@),
        !spells(word, "QUIT"@),
    ensures
        line_turn(s, word) == fails(
            s,
            false,
            if word.len() > 0 {
                "500 5.5.1 Command not recognized"@
            } else {
                "500 5.5.2 Empty command"@
            },
        ),
{
    lemma_verbs(word);
    lemma_visible_is_tight(word);
    tight_text_stays(word);
    lemma_index_of(word, ' ');
    let n = index_of(word, ' ');
    if n < word.len() {
        assert('!' <= word[n] <= '~');
    }
    assert forall|i: int| 0 <= i < word.len() implies '\0' <= #[trigger] word[i] <= '\u{7f}' by {
        assert('!' <= word[i] <= '~');
    }
    assert(verb_of(word) == ascii_upper(word));
    assert(ascii_upper(word).len() == word.len());
    if word.len() == 0 {
        assert(ascii_upper(word) =~= ""@);
    }
}

// ---- STARTTLS and AUTH ----

/// STARTTLS is there once on a plaintext connection, and starts the handshake.
pub proof fn encryption_is_offered_once(s: SessionView, verb: Seq<char>)
    requires
        s.wf(),
        s.stage is Command,
        spells(verb, "STARTTLS"@),
    ensures
        s.starttls ==> line_turn(s, verb) == (Turn {
            session: SessionView { starttls: false, stage: StageView::Handshake, ..s },
            replies: seq!["220 2.0.0 Ready to start TLS"@],
            next: NextView::StartTls,
        }),
        !s.starttls ==> line_turn(s, verb) == fails(s, false, "454 4.7.0 TLS not available"@),
{
    lemma_verbs(verb);
    lemma_command(verb, "STARTTLS"@, Seq::empty());
    reveal_strlit("STARTTLS");
}

/// The session waits for the credential that goes by `username`.
pub open spec fn looks_up(
    s: SessionView,
    username: Seq<char>,
    password: Seq<char>,
    mechanism: Seq<char>,
) -> Turn {
    Turn {
        session: SessionView { stage: StageView::AuthLookup { password, mechanism }, ..s },
        replies: Seq::empty(),
        next: NextView::LookupCredential { username },
    }
}

proof fn lemma_auth_argument(mechanism: Seq<char>, upper: Seq<char>, initial: Seq<char>)
    requires
        spells(mechanism, upper),
        is_visible(upper),
        upper.len() > 0,
        initial.len() > 0,
        is_tight(initial),
    ensures
        ({
            let arg = mechanism + " "@ + initial;
            &&& !is_white(arg[0])
            &&& trimmed(arg) == arg
            &&& index_of(arg, ' ') == mechanism.len()
            &&& unicode_upper(arg.take(mechanism.len() as int)) == upper
            &&& trimmed(arg.skip(mechanism.len() as int + 1)) == initial
            &&& !is_white(mechanism[0])
            &&& trimmed(mechanism) == mechanism
            &&& index_of(mechanism, ' ') == mechanism.len()
            &&& unicode_upper(mechanism.take(mechanism.len() as int)) == upper
        }),
{
    reveal_strlit(" ");
    lemma_spelling(mechanism, upper);
    let arg = mechanism + " "@ + initial;
    let n = mechanism.len() as int;
    assert(arg[0] == mechanism[0]);
    assert(!is_white(mechanism[0]));
    assert(arg.last() == initial.last());
    tight_text_stays(arg);
    tight_text_stays(initial);
    tight_text_stays(mechanism);
    lemma_index_of(arg, ' ');
    lemma_index_of(mechanism, ' ');
    assert(arg[n] == ' ');
    assert forall|i: int| 0 <= i < n implies arg[i] != ' ' by {
        assert(arg[i] == mechanism[i]);
    }
    assert(arg.take(n) =~= mechanism);
    assert(arg.skip(n + 1) =~= initial);
    assert(mechanism.take(n) =~= mechanism);
}

/// A client that authenticates with PLAIN has the user name and the password that
/// it wrote looked up, whether they come with the command or on a line of their
/// own.
#[verifier::spinoff_prover]
#[verifier::rlimit(50)]
pub proof fn plain_authentication_is_understood(
    s: SessionView,
    verb: Seq<char>,
    mechanism: Seq<char>,
    username: Seq<char>,
    password: Seq<char>,
)
    requires
        s.wf(),
        s.stage is Command,
        s.auth is None,
        spells(verb, "AUTH"@),
        spells(mechanism, "PLAIN"@),
        forall|i: int| 0 <= i < username.len() ==> username[i] != '\0',
        forall|i: int| 0 <= i < password.len() ==> password[i] != '\0',
    ensures
        ({
            let payload = base64_text(plain_payload(username, password));
            let asked = SessionView { stage: StageView::AuthPlain, ..s };
            &&& line_turn(s, verb + " "@ + (mechanism + " "@ + payload)) == looks_up(
                s,
                username,
                password,
                "PLAIN"@,
            )
            &&& line_turn(s, verb + " "@ + mechanism) == goes_on(asked, "334 "@)
            &&& line_turn(asked, payload) == looks_up(s, username, password, "PLAIN"@)
        }),
{
    lemma_verbs(verb);
    reveal_strlit("PLAIN");
    let b = plain_payload(username, password);
    let payload = base64_text(b);
    base64_has_no_whitespace(b);
    assert(payload.len() >= 4);
    assert(is_tight(payload));
    lemma_auth_argument(mechanism, "PLAIN"@, payload);
    lemma_command(verb, "AUTH"@, mechanism + " "@ + payload);
    lemma_command(verb, "AUTH"@, mechanism);
    let asked = SessionView { stage: StageView::AuthPlain, ..s };
    plain_credentials_are_understood(s, username, password);
    plain_credentials_are_understood(asked, username, password);
}

/// The same holds of LOGIN: the server asks for what it was not told, the user
/// name and then the password.
#[verifier::spinoff_prover]
#[verifier::rlimit(50)]
pub proof fn login_asks_for_what_is_missing(
    s: SessionView,
    verb: Seq<char>,
    mechanism: Seq<char>,
    initial: Seq<char>,
)
    requires
        s.wf(),
        s.stage is Command,
        s.auth is None,
        spells(verb, "AUTH"@),
        spells(mechanism, "LOGIN"@),
        initial.len() > 0,
        is_tight(initial),
        initial != "*"@,
    ensures
        line_turn(s, verb + " "@ + mechanism) == goes_on(
            SessionView { stage: StageView::AuthLoginUser, ..s },
            "334 VXNlcm5hbWU6"@,
        ),
        line_turn(s, verb + " "@ + (mechanism + " "@ + initial)) == goes_on(
            SessionView { stage: StageView::AuthLoginPass { username: initial }, ..s },
            "334 UGFzc3dvcmQ6"@,
        ),
{
    lemma_verbs(verb);
    reveal_strlit("LOGIN");
    reveal_strlit("PLAIN");
    assert("LOGIN"@[0] != "PLAIN"@[0]);
    lemma_auth_argument(mechanism, "LOGIN"@, initial);
    tight_text_stays(initial);
    lemma_command(verb, "AUTH"@, mechanism + " "@ + initial);
    lemma_command(verb, "AUTH"@, mechanism);
}

/// Once both are there, LOGIN has the user name and the password that the client
/// wrote looked up.
#[verifier::spinoff_prover]
pub proof fn login_authentication_is_understood(
    s: SessionView,
    username: Seq<char>,
    password: Seq<char>,
)
    requires
        s.wf(),
        s.auth is None,
    ensures
        ({
            let u = base64_text(encode_utf8(username));
            let p = base64_text(encode_utf8(password));
            let name_asked = SessionView { stage: StageView::AuthLoginUser, ..s };
            let password_asked = SessionView {
                stage: StageView::AuthLoginPass { username: u },
                ..s
            };
            &&& line_turn(name_asked, u) == goes_on(password_asked, "334 UGFzc3dvcmQ6"@)
            &&& line_turn(password_asked, p) == looks_up(s, username, password, "LOGIN"@)
        }),
{
    let u = base64_text(encode_utf8(username));
    let name_asked = SessionView { stage: StageView::AuthLoginUser, ..s };
    let password_asked = SessionView { stage: StageView::AuthLoginPass { username: u }, ..s };
    login_credentials_are_understood(name_asked, username, password);
    login_credentials_are_understood(password_asked, username, password);
}

/// Whoever gives the password of a credential is from then on its owner, by the
/// mechanism they used. Anybody else has failed to authenticate once more.
pub proof fn the_password_decides(
    s: SessionView,
    password: Seq<char>,
    mechanism: Seq<char>,
    c: CredAuthView,
)
    requires
        s.wf(),
        s.stage == (StageView::AuthLookup { password, mechanism }),
    ensures
        c.password == password ==> credential_turn(s, Some(c)) == goes_on(
            SessionView {
                auth: Some(
                    AuthedView {
                        cred_id: c.id,
                        user_id: c.user_id,
                        cred_username: c.username,
                        mechanism,
                    },
                ),
                stage: StageView::Command,
                ..s
            },
            "235 2.7.0 Authentication successful"@,
        ),
        c.password != password ==> credential_turn(s, Some(c)) == fails(
            s,
            true,
            "535 5.7.8 Authentication credentials invalid"@,
        ),
        credential_turn(s, None) == fails(
            s,
            true,
            "535 5.7.8 Authentication credentials invalid"@,
        ),
{
}

/// A client may call an attempt off with an asterisk.
#[verifier::spinoff_prover]
pub proof fn authentication_can_be_called_off(s: SessionView, username: Seq<char>)
    requires
        s.wf(),
        s.auth is None,
    ensures
        line_turn(SessionView { stage: StageView::AuthPlain, ..s }, "*"@) == fails(
            s,
            false,
            "501 5.7.0 Authentication aborted"@,
        ),
        line_turn(SessionView { stage: StageView::AuthLoginUser, ..s }, "*"@) == fails(
            s,
            false,
            "501 5.7.0 Authentication aborted"@,
        ),
        line_turn(SessionView { stage: StageView::AuthLoginPass { username }, ..s }, "*"@)
            == fails(s, false, "501 5.7.0 Authentication aborted"@),
{
    reveal_strlit("*");
    tight_text_stays("*"@);
}

/// Blanks around the asterisk do not count with LOGIN. With PLAIN they make it a
/// payload, which is no base64.
#[verifier::spinoff_prover]
#[verifier::rlimit(50)]
pub proof fn an_asterisk_may_have_blanks_with_login(
    s: SessionView,
    username: Seq<char>,
    a: Seq<char>,
    b: Seq<char>,
)
    requires
        s.wf(),
        s.auth is None,
        is_blank(a),
        is_blank(b),
        a.len() + b.len() > 0,
    ensures
        line_turn(SessionView { stage: StageView::AuthLoginUser, ..s }, a + "*"@ + b) == fails(
            s,
            false,
            "501 5.7.0 Authentication aborted"@,
        ),
        line_turn(SessionView { stage: StageView::AuthLoginPass { username }, ..s }, a + "*"@ + b)
            == fails(s, false, "501 5.7.0 Authentication aborted"@),
        line_turn(SessionView { stage: StageView::AuthPlain, ..s }, a + "*"@ + b) == fails(
            s,
            true,
            "501 5.5.2 Invalid base64"@,
        ),
{
    reveal_strlit("*");
    trimming_takes_the_blanks_around(a, "*"@, b);
    assert((a + "*"@ + b).len() != "*"@.len());
    lemma_asterisk_is_no_base64();
}

proof fn lemma_asterisk_is_no_base64()
    ensures
        base64_bytes("*"@) is None,
{
    if exists|payload: Seq<u8>| #[trigger] base64_text(payload) == "*"@ {
        let payload = choose|payload: Seq<u8>| #[trigger] base64_text(payload) == "*"@;
        lemma_payload_is_no_asterisk(payload);
    }
}

/// Nobody authenticates twice, and an unknown mechanism is refused.
#[verifier::spinoff_prover]
#[verifier::rlimit(50)]
pub proof fn other_authentication_is_refused(
    s: SessionView,
    verb: Seq<char>,
    mechanism: Seq<char>,
)
    requires
        s.wf(),
        s.stage is Command,
        spells(verb, "AUTH"@),
        is_visible(mechanism),
        mechanism.len() > 0,
    ensures
        s.auth is Some ==> line_turn(s, verb + " "@ + mechanism) == fails(
            s,
            false,
            "503 5.5.1 Already authenticated"@,
        ),
        s.auth is None && !spells(mechanism, "PLAIN"@) && !spells(mechanism, "LOGIN"@)
            ==> line_turn(s, verb + " "@ + mechanism) == fails(
            s,
            false,
            "504 5.5.4 Unrecognized authentication type"@,
        ),
{
    lemma_verbs(verb);
    lemma_visible_is_tight(mechanism);
    tight_text_stays(mechanism);
    lemma_index_of(mechanism, ' ');
    let n = index_of(mechanism, ' ');
    if n < mechanism.len() {
        assert('!' <= mechanism[n] <= '~');
    }
    assert(mechanism.take(n) =~= mechanism);
    assert forall|i: int| 0 <= i < mechanism.len() implies '\0' <= #[trigger] mechanism[i]
        <= '\u{7f}' by {
        assert('!' <= mechanism[i] <= '~');
    }
    lemma_command(verb, "AUTH"@, mechanism);
}

/// What is no base64 fails an attempt, and counts as a failure to authenticate.
#[verifier::spinoff_prover]
pub proof fn what_is_no_base64_does_not_authenticate(
    s: SessionView,
    line: Seq<char>,
    username: Seq<char>,
)
    requires
        s.wf(),
        s.auth is None,
        line != "*"@,
        trimmed(line) != "*"@,
        base64_bytes(trimmed(line)) is None,
    ensures
        line_turn(SessionView { stage: StageView::AuthPlain, ..s }, line) == fails(
            s,
            true,
            "501 5.5.2 Invalid base64"@,
        ),
        line_turn(SessionView { stage: StageView::AuthLoginPass { username }, ..s }, line) == fails(
            s,
            true,
            "501 5.5.2 Invalid base64"@,
        ),
{
}

/// Whether bytes hold no NUL.
pub open spec fn is_part(b: Seq<u8>) -> bool {
    forall|i: int| 0 <= i < b.len() ==> #[trigger] b[i] != 0
}

/// A payload of PLAIN has three parts with a NUL between them: whom to act for, which
/// does not matter, the user name and the password. With fewer parts or more it
/// fails an attempt, and counts as a failure to authenticate.
#[verifier::spinoff_prover]
pub proof fn a_payload_has_three_parts(
    s: SessionView,
    a: Seq<u8>,
    b: Seq<u8>,
    c: Seq<u8>,
    rest: Seq<u8>,
)
    requires
        s.wf(),
        s.auth is None,
        is_part(a) && is_part(b) && is_part(c),
    ensures
        ({
            let asked = SessionView { stage: StageView::AuthPlain, ..s };
            let malformed = fails(s, true, "501 5.5.2 Malformed AUTH PLAIN payload"@);
            let nul = seq![0u8];
            &&& line_turn(asked, base64_text(a)) == malformed
            &&& line_turn(asked, base64_text(a + nul + b)) == malformed
            &&& line_turn(asked, base64_text(a + nul + (b + nul + c))) == looks_up(
                s,
                lossy(b),
                lossy(c),
                "PLAIN"@,
            )
            &&& line_turn(asked, base64_text(a + nul + (b + nul + (c + nul + rest)))) == malformed
        }),
{
    let nul = seq![0u8];
    lemma_plain_parts(a, b, c, rest);
    lemma_plain_turn(s, a);
    lemma_plain_turn(s, a + nul + b);
    lemma_plain_turn(s, a + nul + (b + nul + c));
    lemma_plain_turn(s, a + nul + (b + nul + (c + nul + rest)));
}

proof fn lemma_plain_turn(s: SessionView, payload: Seq<u8>)
    requires
        s.wf(),
        s.auth is None,
    ensures
        line_turn(SessionView { stage: StageView::AuthPlain, ..s }, base64_text(payload)) == (
        match plain_credentials(payload) {
            None => fails(s, true, "501 5.5.2 Malformed AUTH PLAIN payload"@),
            Some((username, password)) => looks_up(s, username, password, "PLAIN"@),
        }),
{
    lemma_payload_is_no_asterisk(payload);
    base64_decodes_what_it_encodes(payload);
}

proof fn lemma_plain_parts(a: Seq<u8>, b: Seq<u8>, c: Seq<u8>, rest: Seq<u8>)
    requires
        is_part(a) && is_part(b) && is_part(c),
    ensures
        plain_credentials(a) is None,
        plain_credentials(a + seq![0u8] + b) is None,
        plain_credentials(a + seq![0u8] + (b + seq![0u8] + c)) == Some((lossy(b), lossy(c))),
        plain_credentials(a + seq![0u8] + (b + seq![0u8] + (c + seq![0u8] + rest))) is None,
{
    let nul = seq![0u8];
    lemma_first_nul(a, b);
    lemma_first_nul(a, b + nul + c);
    lemma_first_nul(a, b + nul + (c + nul + rest));
    lemma_first_nul(b, c);
    lemma_first_nul(b, c + nul + rest);
    lemma_first_nul(c, rest);
}

proof fn lemma_first_nul(a: Seq<u8>, rest: Seq<u8>)
    requires
        is_part(a),
    ensures
        ({
            let s = a + seq![0u8] + rest;
            &&& index_of_byte(s, 0) == a.len()
            &&& s.take(a.len() as int) == a
            &&& s.skip(a.len() as int + 1) == rest
            &&& index_of_byte(a, 0) == a.len()
        }),
{
    let s = a + seq![0u8] + rest;
    assert forall|i: int| 0 <= i < a.len() implies s[i] != 0 by {
        assert(s[i] == a[i]);
    }
    lemma_index_of_byte_is(s, 0, a.len() as int);
    lemma_index_of_byte_is(a, 0, a.len() as int);
    assert(s.take(a.len() as int) =~= a);
    assert(s.skip(a.len() as int + 1) =~= rest);
}

proof fn lemma_payload_is_no_asterisk(payload: Seq<u8>)
    ensures
        base64_text(payload) != "*"@,
        trimmed(base64_text(payload)) == base64_text(payload),
{
    reveal_strlit("*");
    base64_has_no_whitespace(payload);
    let text = base64_text(payload);
    if text.len() > 0 {
        assert(!is_white(text[0]));
        assert(!is_white(text[text.len() - 1]));
    }
    tight_text_stays(text);
    assert(payload.len() == 0 ==> text.len() == 0);
}

// ---- what is written wrongly ----

/// A sender and a recipient have to be written behind their keyword.
#[verifier::spinoff_prover]
pub proof fn an_address_needs_its_keyword(s: SessionView, verb: Seq<char>, arg: Seq<char>)
    requires
        s.wf(),
        s.stage is Command,
        is_tight(arg),
    ensures
        spells(verb, "MAIL"@) && s.helo is Some && s.auth is Some && s.mail_from is None && (
        arg.len() < 5 || !spells(arg.take(5), "FROM:"@)) ==> line_turn(s, verb + " "@ + arg)
            == fails(s, false, "501 5.5.4 Syntax: MAIL FROM:<address>"@),
        spells(verb, "RCPT"@) && s.mail_from is Some && (arg.len() < 3 || !spells(
            arg.take(3),
            "TO:"@,
        )) ==> line_turn(s, verb + " "@ + arg) == fails(
            s,
            false,
            "501 5.5.4 Syntax: RCPT TO:<address>"@,
        ),
{
    lemma_verbs(verb);
    reveal_strlit("FROM:");
    reveal_strlit("TO:");
    tight_text_stays(arg);
    if spells(verb, "MAIL"@) {
        lemma_command(verb, "MAIL"@, arg);
    }
    if spells(verb, "RCPT"@) {
        lemma_command(verb, "RCPT"@, arg);
    }
}

/// An address that cannot be read is refused, and so is a recipient without one.
#[verifier::spinoff_prover]
pub proof fn an_address_has_to_be_there(
    s: SessionView,
    verb: Seq<char>,
    keyword: Seq<char>,
    rest: Seq<char>,
)
    requires
        s.wf(),
        s.stage is Command,
        is_tight(rest),
        rest.len() > 0,
        address_of(rest) is None,
    ensures
        spells(verb, "MAIL"@) && spells(keyword, "FROM:"@) && s.helo is Some && s.auth is Some
            && s.mail_from is None ==> line_turn(s, verb + " "@ + (keyword + rest)) == fails(
            s,
            false,
            "501 5.1.7 Bad sender address syntax"@,
        ),
        spells(verb, "RCPT"@) && spells(keyword, "TO:"@) && s.mail_from is Some ==> line_turn(
            s,
            verb + " "@ + (keyword + rest),
        ) == fails(s, false, "501 5.1.3 Bad recipient address syntax"@),
{
    lemma_verbs(verb);
    reveal_strlit("FROM:");
    reveal_strlit("TO:");
    let arg = keyword + rest;
    assert(arg.last() == rest.last());
    if spells(verb, "MAIL"@) && spells(keyword, "FROM:"@) {
        lemma_spelling(keyword, "FROM:"@);
        assert(arg[0] == keyword[0]);
        assert(!is_white(keyword[0]));
        tight_text_stays(arg);
        assert(arg.take(5) =~= keyword);
        assert(arg.skip(5) =~= rest);
        lemma_command(verb, "MAIL"@, arg);
    }
    if spells(verb, "RCPT"@) && spells(keyword, "TO:"@) {
        lemma_spelling(keyword, "TO:"@);
        assert(arg[0] == keyword[0]);
        assert(!is_white(keyword[0]));
        tight_text_stays(arg);
        assert(arg.take(3) =~= keyword);
        assert(arg.skip(3) =~= rest);
        lemma_command(verb, "RCPT"@, arg);
    }
}

/// A message has to be for somebody: an empty recipient is refused.
pub proof fn an_empty_recipient_is_refused(s: SessionView, verb: Seq<char>, to: Seq<char>)
    requires
        s.wf(),
        s.stage is Command,
        s.mail_from is Some,
        spells(verb, "RCPT"@),
        spells(to, "TO:"@),
    ensures
        line_turn(s, verb + " "@ + (to + ("<"@ + ""@ + ">"@ + ""@))) == fails(
            s,
            false,
            "501 5.1.3 Bad recipient address syntax"@,
        ),
{
    lemma_verbs(verb);
    reveal_strlit("TO:");
    reveal_strlit("");
    lemma_path(to, "TO:"@, ""@, ""@);
    lemma_command(verb, "RCPT"@, to + ("<"@ + ""@ + ">"@ + ""@));
}

/// A parameter that declares no size is passed over, and the first size counts.
pub proof fn the_first_size_is_the_declared_one(
    word: Seq<char>,
    size: nat,
    rest: Seq<Seq<char>>,
)
    ensures
        is_visible(word) && (word.len() < 5 || !spells(word.take(5), "SIZE="@)) ==> declared_size(
            seq![word] + rest,
        ) == declared_size(rest),
        size <= usize::MAX ==> declared_size(seq!["SIZE="@ + decimal(size)] + rest) == Some(size),
        size > usize::MAX ==> declared_size(seq!["SIZE="@ + decimal(size)] + rest) is None,
        declared_size(Seq::empty()) is None,
{
    reveal_strlit("SIZE=");
    decimal_reads_back(size);
    let number = decimal(size);
    let param = "SIZE="@ + number;
    assert((seq![word] + rest).skip(1) =~= rest);
    assert((seq![word] + rest)[0] == word);
    if is_visible(word) && (word.len() < 5 || !spells(word.take(5), "SIZE="@)) {
        assert forall|i: int| 0 <= i < word.len() implies '\0' <= #[trigger] word[i]
            <= '\u{7f}' by {
            assert('!' <= word[i] <= '~');
        }
        let p = ascii_upper(word);
        assert(unicode_upper(word) == p);
        if "SIZE="@.is_prefix_of(p) {
            assert(p.subrange(0, 5) =~= ascii_upper(word.take(5)));
        }
    }
    assert forall|i: int| 0 <= i < param.len() implies '\0' <= #[trigger] param[i] <= '\u{7f}'
        && upper_char(param[i]) == param[i] by {
        if i < 5 {
            assert(param[i] == "SIZE="@[i]);
        } else {
            assert(param[i] == number[i - 5]);
            assert(is_digit(number[i - 5]));
        }
    }
    assert(unicode_upper(param) =~= param);
    assert(param.subrange(0, 5) =~= "SIZE="@);
    assert(param.skip(5) =~= number);
    assert((seq![param] + rest)[0] == param);
}

/// A line may also end with a line feed alone.
pub proof fn a_line_feed_ends_a_line(line: Seq<u8>, rest: Seq<u8>)
    requires
        forall|i: int| 0 <= i < line.len() ==> #[trigger] line[i] != 10,
        line.len() > 0 ==> line.last() != 13,
    ensures
        has_line(line + seq![10u8] + rest),
        line_bytes(line + seq![10u8] + rest) == line,
        crate::smtp::line::after_line(line + seq![10u8] + rest) == rest,
        !has_line(line),
{
    let b = line + seq![10u8] + rest;
    assert forall|i: int| 0 <= i < line.len() implies b[i] != 10 by {
        assert(b[i] == line[i]);
    }
    lemma_index_of_byte_is(b, 10, line.len() as int);
    lemma_index_of_byte_is(line, 10, line.len() as int);
    assert(b.take(line.len() as int) =~= line);
    assert(b.skip(line.len() as int + 1) =~= rest);
}

// ---- a whole transaction ----

/// A message from its sender to its last line: an authenticated client that names
/// a sender and its recipients and then sends `lines` has exactly these handed
/// over, with the credential and the connection it used.
#[verifier::spinoff_prover]
#[verifier::rlimit(50)]
pub proof fn a_transaction_hands_over_its_envelope(
    s: SessionView,
    sender: Seq<char>,
    addrs: Seq<Seq<char>>,
    lines: Seq<Seq<char>>,
)
    requires
        s.wf(),
        s.stage is Command,
        s.helo is Some,
        s.auth is Some,
        s.mail_from is None,
        s.messages < 100,
        is_visible(sender),
        forall|i: int| 0 <= i < sender.len() ==> #[trigger] sender[i] != '>',
        1 <= addrs.len() <= 50,
        forall|i: int| 0 <= i < addrs.len() ==> is_address(#[trigger] addrs[i]),
        message_bytes(lines).len() <= s.max_message_size,
    ensures
        ({
            let mail = "MAIL"@ + " "@ + ("FROM:"@ + ("<"@ + sender + ">"@ + ""@));
            let said = seq![mail] + recipient_lines(addrs) + seq!["DATA"@];
            let t = line_turn(after_lines(after_saying(s, said), lines), "."@);
            &&& t.next == NextView::Store(
                SubmissionView {
                    user_id: s.auth->0.user_id,
                    cred_id: s.auth->0.cred_id,
                    cred_username: s.auth->0.cred_username,
                    mail_from: sender,
                    rcpt_to: addrs,
                    raw: message_bytes(lines),
                    conn: ConnectionView {
                        kind: s.kind,
                        tls_version: s.tls_version,
                        tls_cipher: s.tls_cipher,
                        peer_addr: s.peer,
                        helo: s.helo->0,
                        esmtp: s.esmtp,
                        auth_mechanism: s.auth->0.mechanism,
                    },
                },
            )
            &&& t.replies == Seq::<Seq<char>>::empty()
            &&& t.session == (SessionView { stage: StageView::Storing, ..s })
        }),
{
    let mail = "MAIL"@ + " "@ + ("FROM:"@ + ("<"@ + sender + ">"@ + ""@));
    lemma_after_sender(s, sender);
    let one = SessionView { mail_from: Some(sender), ..s };
    assert(s.rcpt_to.len() == 0);
    every_recipient_is_kept(one, addrs);
    let two = SessionView { rcpt_to: one.rcpt_to + addrs, ..one };
    assert(one.rcpt_to + addrs =~= addrs);
    lemma_saying_goes_on(s, mail, recipient_lines(addrs));
    let named = seq![mail] + recipient_lines(addrs);
    assert(after_saying(s, named) == two);
    let said = named + seq!["DATA"@];
    assert(said.drop_last() =~= named);
    assert(said.last() == "DATA"@);
    lemma_after_data(two);
    let three = after_saying(s, said);
    assert(three.stage == (StageView::Data { body: Seq::empty(), oversize: false }));
    a_message_arrives_as_written(three, lines);
    assert(s.rcpt_to =~= Seq::empty());
}

/// A message that is larger than the maximum is refused once it is complete, and
/// the client may start over.
pub proof fn a_message_over_the_maximum_is_refused(s: SessionView, lines: Seq<Seq<char>>)
    requires
        s.stage == (StageView::Data { body: Seq::empty(), oversize: false }),
        message_bytes(lines).len() > s.max_message_size,
    ensures
        line_turn(after_lines(s, lines), "."@) == fails(
            SessionView { mail_from: None, rcpt_to: Seq::empty(), ..s },
            false,
            "552 5.3.4 Message size exceeds fixed maximum"@,
        ),
{
    an_oversized_message_is_refused(s, lines);
}

/// A line of a message is taken in without an answer, as far as it fits; of a line
/// that begins with a dot and is not the dot alone the dot is taken off.
pub proof fn a_line_of_a_message_is_taken_in(s: SessionView, body: Seq<u8>, line: Seq<char>)
    requires
        s.stage == (StageView::Data { body, oversize: false }),
        body.len() + encode_utf8(line).len() + 2 <= s.max_message_size,
    ensures
        ({
            let more = body + encode_utf8(line) + seq![13u8, 10u8];
            let taken = Turn {
                session: SessionView {
                    stage: StageView::Data { body: more, oversize: false },
                    ..s
                },
                replies: Seq::empty(),
                next: NextView::ReadLine,
            };
            &&& line.len() == 0 || line[0] != '.' ==> line_turn(s, line) == taken
            &&& line.len() > 0 ==> line_turn(s, "."@ + line) == taken
        }),
{
    reveal_strlit(".");
    let dotted = "."@ + line;
    assert(dotted.skip(1) =~= line);
    assert(dotted[0] == '.');
    assert(dotted.len() == line.len() + 1);
}

/// A line that does not fit is dropped, and so is the message once it is complete.
pub proof fn a_line_that_does_not_fit_is_dropped(
    s: SessionView,
    body: Seq<u8>,
    oversize: bool,
    line: Seq<char>,
)
    requires
        s.stage == (StageView::Data { body, oversize }),
        line.len() == 0 || line[0] != '.',
        body.len() + encode_utf8(line).len() + 2 > s.max_message_size,
    ensures
        line_turn(s, line) == (Turn {
            session: SessionView { stage: StageView::Data { body, oversize: true }, ..s },
            replies: Seq::empty(),
            next: NextView::ReadLine,
        }),
{
    reveal_strlit(".");
}

/// The bytes of a message are its lines, each with a line end.
pub proof fn a_message_is_its_lines(lines: Seq<Seq<char>>, line: Seq<char>)
    ensures
        message_bytes(Seq::empty()) == Seq::<u8>::empty(),
        message_bytes(lines.push(line)) == message_bytes(lines) + encode_utf8(line) + seq![
            13u8,
            10u8,
        ],
        line.len() > 0 && line[0] == '.' ==> stuffed(line) == seq!['.'] + line,
        line.len() == 0 || line[0] != '.' ==> stuffed(line) == line,
{
    assert(lines.push(line).drop_last() =~= lines);
}

proof fn lemma_saying_goes_on(s: SessionView, first: Seq<char>, rest: Seq<Seq<char>>)
    ensures
        after_saying(s, seq![first] + rest) == after_saying(after_line(s, first), rest),
    decreases rest.len(),
{
    let all = seq![first] + rest;
    if rest.len() == 0 {
        assert(all.drop_last() =~= Seq::<Seq<char>>::empty());
        assert(all.last() == first);
        assert(after_saying(s, Seq::<Seq<char>>::empty()) == s);
    } else {
        assert(all.drop_last() =~= seq![first] + rest.drop_last());
        assert(all.last() == rest.last());
        lemma_saying_goes_on(s, first, rest.drop_last());
    }
}

/// The limits of a session: 8192 bytes to a line, fifty recipients to a message, a
/// hundred messages to a connection, twenty errors, and five failures to
/// authenticate.
pub proof fn a_session_has_its_limits()
    ensures
        MAX_LINE == 8192,
        MAX_RCPT == 50,
        MAX_MESSAGES_PER_CONN == 100,
        MAX_ERRORS == 20,
        MAX_AUTH_FAILURES == 5,
{
}

/// A connection is recorded as what it is: plaintext until STARTTLS, STARTTLS
/// after it, and TLS from the start on the other listener. It starts with nothing
/// said, and offers STARTTLS on the plaintext listener alone.
pub proof fn connections_are_told_apart(
    hostname: Seq<char>,
    max: nat,
    peer: Seq<char>,
    s: SessionView,
    version: Option<Seq<char>>,
    cipher: Option<Seq<char>>,
)
    requires
        s.wf(),
        s.stage is Handshake,
    ensures
        ({
            let plain = fresh_plain(hostname, max, peer);
            let tls = fresh_tls(hostname, max, peer, version, cipher);
            let upgraded = tls_turn(s, version, cipher).session;
            &&& plain.kind == ConnKind::Plaintext && plain.starttls
            &&& plain.tls_version is None && plain.tls_cipher is None
            &&& tls.kind == ConnKind::ImplicitTls && !tls.starttls
            &&& tls.tls_version == version && tls.tls_cipher == cipher
            &&& upgraded.kind == ConnKind::StartTls && !upgraded.starttls
            &&& upgraded.tls_version == version && upgraded.tls_cipher == cipher
            &&& plain.hostname == hostname && tls.hostname == hostname
            &&& plain.max_message_size == max && tls.max_message_size == max
            &&& plain.peer == peer && tls.peer == peer
            &&& plain.helo is None && tls.helo is None && upgraded.helo is None
            &&& !plain.esmtp && !tls.esmtp && !upgraded.esmtp
            &&& plain.auth is None && tls.auth is None && upgraded.auth is None
            &&& plain.mail_from is None && tls.mail_from is None && upgraded.mail_from is None
            &&& plain.rcpt_to.len() == 0 && tls.rcpt_to.len() == 0 && upgraded.rcpt_to.len() == 0
            &&& plain.errors == 0 && plain.auth_failures == 0 && plain.messages == 0
            &&& tls.errors == 0 && tls.auth_failures == 0 && tls.messages == 0
            &&& plain.stage is Command && tls.stage is Command && upgraded.stage is Command
        }),
{
}

} // verus!
