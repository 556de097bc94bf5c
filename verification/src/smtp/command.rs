//! Reading SMTP commands and their arguments.

use vstd::prelude::*;
use vstd::string::*;

use crate::bytes::{byte_range, find_byte, index_of_byte};
use crate::text::{
    ascii_upper, chars_of, find_char, from_utf8_lossy, index_of, lemma_index_of, lossy,
    parse_usize, skip_chars, split_whitespace, starts_with, text_range, texts, to_uppercase, trim,
    trim_end, trim_start, trimmed, trimmed_end, trimmed_start, unicode_upper, unsigned_number,
    upper_char, words,
};

verus! {

/// The verb of a command line, in upper case: what stands before the first space.
pub open spec fn verb_of(line: Seq<char>) -> Seq<char> {
    let t = trimmed_start(line);
    let i = index_of(t, ' ');
    if i < t.len() {
        unicode_upper(t.take(i))
    } else {
        unicode_upper(trimmed_end(t))
    }
}

/// The argument of a command line: what follows the first space.
pub open spec fn argument_of(line: Seq<char>) -> Seq<char> {
    let t = trimmed_start(line);
    let i = index_of(t, ' ');
    if i < t.len() {
        trimmed_start(t.skip(i + 1))
    } else {
        Seq::empty()
    }
}

/// Splits a command line into its verb, in upper case, and its argument.
pub fn split_command(line: &str) -> (r: (String, String))
    ensures
        r.0@ == verb_of(line@),
        r.1@ == argument_of(line@),
{
    let t = trim_start(line);
    let cs = chars_of(t.as_str());
    let i = find_char(&cs, ' ');
    if i < cs.len() {
        let verb = text_range(&cs, 0, i);
        let rest = text_range(&cs, i + 1, cs.len());
        assert(cs@.subrange(0, i as int) =~= cs@.take(i as int));
        assert(cs@.subrange(i + 1, cs@.len() as int) =~= cs@.skip(i + 1));
        (to_uppercase(verb.as_str()), trim_start(rest.as_str()))
    } else {
        let verb = trim_end(t.as_str());
        (to_uppercase(verb.as_str()), String::new())
    }
}

/// Whether `s` begins with `keyword` in either case. The keyword is upper-case
/// ASCII.
pub open spec fn has_keyword(s: Seq<char>, keyword: Seq<char>) -> bool {
    s.len() >= keyword.len() && ascii_upper(s.take(keyword.len() as int)) == keyword
}

/// Whether `s` begins with `keyword` in either case.
pub fn starts_with_keyword(s: &str, keyword: &str) -> (r: bool)
    ensures
        r == has_keyword(s@, keyword@),
{
    let cs = chars_of(s);
    let ks = chars_of(keyword);
    if cs.len() < ks.len() {
        return false;
    }
    let ghost head = s@.take(keyword@.len() as int);
    let mut i: usize = 0;
    while i < ks.len()
        invariant
            i <= ks@.len() <= cs@.len(),
            cs@ == s@,
            ks@ == keyword@,
            head == s@.take(keyword@.len() as int),
            forall|j: int| 0 <= j < i ==> ascii_upper(head)[j] == ks@[j],
        decreases ks@.len() - i,
    {
        let c = cs[i];
        let u = if 'a' <= c && c <= 'z' {
            ((c as u8) - 32) as char
        } else {
            c
        };
        assert(u == upper_char(c));
        assert(ascii_upper(head)[i as int] == upper_char(c));
        if u != ks[i] {
            assert(ascii_upper(head)[i as int] != keyword@[i as int]);
            return false;
        }
        i += 1;
    }
    assert(ascii_upper(head) =~= keyword@);
    true
}

/// The address of a path: what `<` and `>` enclose, else the first word. `None`
/// if the bracket is not closed, or if there is no word.
pub open spec fn address_of(s: Seq<char>) -> Option<Seq<char>> {
    let t = trimmed(s);
    let open = index_of(t, '<');
    let from_open = t.skip(open);
    let close = index_of(from_open, '>');
    if open < t.len() {
        if close < from_open.len() {
            Some(trimmed(from_open.subrange(1, close)))
        } else {
            None
        }
    } else if words(t).len() == 0 {
        None
    } else {
        Some(words(t)[0])
    }
}

/// Extract the address from a `<addr>` or bare-address form, ignoring
/// trailing ESMTP parameters. Empty return means the null reverse-path.
pub fn extract_angle_addr(s: &str) -> (r: Option<String>)
    ensures
        crate::text::opt_text(r) == address_of(s@),
{
    let t = trim(s);
    let cs = chars_of(t.as_str());
    let open = find_char(&cs, '<');
    if open < cs.len() {
        let tail = text_range(&cs, open, cs.len());
        assert(cs@.subrange(open as int, cs@.len() as int) =~= cs@.skip(open as int));
        let ts = chars_of(tail.as_str());
        let close = find_char(&ts, '>');
        proof {
            lemma_index_of(cs@, '<');
            lemma_index_of(ts@, '>');
        }
        if close < ts.len() {
            assert(ts@[0] == '<');
            let inner = text_range(&ts, 1, close);
            Some(trim(inner.as_str()))
        } else {
            None
        }
    } else {
        let list = split_whitespace(t.as_str());
        proof {
            assert(texts(list@).len() == list@.len());
        }
        if list.len() == 0 {
            None
        } else {
            assert(texts(list@)[0] == list@[0]@);
            Some(list[0].clone())
        }
    }
}

/// The size that a MAIL command declares: the number in its first `SIZE=`
/// parameter. A number that does not fit the machine counts as none.
pub open spec fn declared_size(params: Seq<Seq<char>>) -> Option<nat>
    decreases params.len(),
{
    if params.len() == 0 {
        None
    } else {
        let p = unicode_upper(params[0]);
        if "SIZE="@.is_prefix_of(p) {
            match unsigned_number(p.skip(5)) {
                Some(n) => if n <= usize::MAX {
                    Some(n)
                } else {
                    None
                },
                None => None,
            }
        } else {
            declared_size(params.skip(1))
        }
    }
}

/// The size that a MAIL command declares in `rest`, the text behind `FROM:`.
pub fn size_parameter(rest: &str) -> (r: Option<usize>)
    ensures
        match r {
            Some(n) => declared_size(words(rest@)) == Some(n as nat),
            None => declared_size(words(rest@)) is None,
        },
{
    let params = split_whitespace(rest);
    let ghost all = texts(params@);
    let mut i: usize = 0;
    assert(all.skip(0) =~= all);
    while i < params.len()
        invariant
            i <= params@.len(),
            all == texts(params@),
            all == words(rest@),
            declared_size(all) == declared_size(all.skip(i as int)),
        decreases params@.len() - i,
    {
        let p = to_uppercase(params[i].as_str());
        assert(all.skip(i as int)[0] == params@[i as int]@);
        if starts_with(p.as_str(), "SIZE=") {
            proof {
                reveal_strlit("SIZE=");
            }
            let v = skip_chars(p.as_str(), 5);
            return parse_usize(v.as_str());
        }
        assert(all.skip(i as int).skip(1) =~= all.skip(i + 1));
        i += 1;
    }
    None
}

/// The user name and the password of an `AUTH PLAIN` payload, which holds
/// authzid NUL authcid NUL password. `None` unless it has exactly two NULs.
pub open spec fn plain_credentials(b: Seq<u8>) -> Option<(Seq<char>, Seq<char>)> {
    let i = index_of_byte(b, 0);
    let rest = b.skip(i + 1);
    let j = index_of_byte(rest, 0);
    let last = rest.skip(j + 1);
    if i < b.len() && j < rest.len() && index_of_byte(last, 0) == last.len() {
        Some((lossy(rest.take(j)), lossy(last)))
    } else {
        None
    }
}

/// Takes an `AUTH PLAIN` payload apart.
pub fn split_plain(b: &[u8]) -> (r: Option<(String, String)>)
    ensures
        match r {
            Some((user, pass)) => plain_credentials(b@) == Some((user@, pass@)),
            None => plain_credentials(b@) is None,
        },
{
    let i = find_byte(b, 0, 0);
    assert(b@.skip(0) =~= b@);
    if i == b.len() {
        return None;
    }
    let j = find_byte(b, i + 1, 0);
    let ghost rest = b@.skip(i + 1);
    if j == b.len() {
        return None;
    }
    let k = find_byte(b, j + 1, 0);
    assert(rest.skip(j - i - 1 + 1) =~= b@.skip(j + 1));
    if k < b.len() {
        return None;
    }
    let user = byte_range(b, i + 1, j);
    let pass = byte_range(b, j + 1, b.len());
    assert(b@.subrange(i + 1, j as int) =~= rest.take(j - i - 1));
    assert(b@.subrange(j + 1, b@.len() as int) =~= b@.skip(j + 1));
    Some((from_utf8_lossy(user.as_slice()), from_utf8_lossy(pass.as_slice())))
}

} // verus!
