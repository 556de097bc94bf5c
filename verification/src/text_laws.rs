//! What holds of the operations on text.

use vstd::prelude::*;

use crate::text::{
    all_digits, ascii_lower, ascii_upper, decimal, decimal_reads_back, first_place, first_sep,
    is_digit, is_white, joined, joined_tail, last_index_of, lemma_first_sep, lemma_last_index_of,
    lower_char, occurs, signed_decimal, signed_number, split_at_any, split_at_text, trimmed,
    trimmed_end, trimmed_start, unsigned_number, upper_char, without_final, word_len, words,
};

verus! {

// ---- whitespace ----

/// Whether a text is nothing but whitespace.
pub open spec fn is_blank(s: Seq<char>) -> bool {
    forall|i: int| 0 <= i < s.len() ==> is_white(#[trigger] s[i])
}

/// Whether a text neither begins nor ends with whitespace.
pub open spec fn is_tight(s: Seq<char>) -> bool {
    s.len() > 0 ==> !is_white(s[0]) && !is_white(s.last())
}

/// Of the ASCII characters, the blank and the controls from the tab to the
/// carriage return are whitespace, and no other.
pub proof fn ascii_whitespace_is_known(c: char)
    requires
        c <= '\u{7f}',
    ensures
        is_white(c) <==> c == ' ' || '\t' <= c <= '\r',
{
}

proof fn lemma_trimmed_start(a: Seq<char>, s: Seq<char>)
    requires
        is_blank(a),
    ensures
        trimmed_start(a + s) == trimmed_start(s),
    decreases a.len(),
{
    if a.len() == 0 {
        assert(a + s =~= s);
    } else {
        let rest = a.skip(1);
        assert((a + s)[0] == a[0]);
        assert(is_white(a[0]));
        assert((a + s).skip(1) =~= rest + s);
        assert forall|i: int| 0 <= i < rest.len() implies is_white(#[trigger] rest[i]) by {
            assert(rest[i] == a[i + 1]);
        }
        lemma_trimmed_start(rest, s);
    }
}

proof fn lemma_trimmed_end(s: Seq<char>, b: Seq<char>)
    requires
        is_blank(b),
    ensures
        trimmed_end(s + b) == trimmed_end(s),
    decreases b.len(),
{
    if b.len() == 0 {
        assert(s + b =~= s);
    } else {
        let rest = b.drop_last();
        assert((s + b).last() == b[b.len() - 1]);
        assert((s + b).drop_last() =~= s + rest);
        assert forall|i: int| 0 <= i < rest.len() implies is_white(#[trigger] rest[i]) by {
            assert(rest[i] == b[i]);
        }
        lemma_trimmed_end(s, rest);
    }
}

proof fn lemma_blank_trims_away(b: Seq<char>)
    requires
        is_blank(b),
    ensures
        trimmed_start(b) == Seq::<char>::empty(),
{
    lemma_trimmed_start(b, Seq::empty());
    assert(b + Seq::<char>::empty() =~= b);
}

/// Blanks before a text do not count once its start is trimmed, and blanks behind
/// it do not once its end is.
pub proof fn blanks_do_not_count(a: Seq<char>, s: Seq<char>, b: Seq<char>)
    requires
        is_blank(a),
        is_blank(b),
    ensures
        trimmed_start(a + s) == trimmed_start(s),
        trimmed_end(s + b) == trimmed_end(s),
{
    lemma_trimmed_start(a, s);
    lemma_trimmed_end(s, b);
}

/// Trimming takes the whitespace at both ends of a text, and nothing else.
pub proof fn trimming_takes_the_blanks_around(a: Seq<char>, s: Seq<char>, b: Seq<char>)
    requires
        is_blank(a),
        is_tight(s),
        is_blank(b),
    ensures
        trimmed(a + s + b) == s,
        trimmed_start(a + s) == s,
        trimmed_end(s + b) == s,
{
    assert(a + s + b =~= a + (s + b));
    lemma_trimmed_start(a, s + b);
    lemma_trimmed_start(a, s);
    lemma_trimmed_end(s, b);
    if s.len() > 0 {
        assert((s + b)[0] == s[0]);
        assert(trimmed_start(s + b) == s + b);
    } else {
        assert(s + b =~= b);
        lemma_blank_trims_away(b);
    }
}

/// A text that is tight stays as it is.
pub proof fn tight_text_stays(s: Seq<char>)
    requires
        is_tight(s),
    ensures
        trimmed(s) == s,
        trimmed_start(s) == s,
        trimmed_end(s) == s,
{
}

// ---- letters ----

/// Changing the case of ASCII letters moves each to its counterpart, 32 places
/// away, and leaves every other character alone.
pub proof fn letters_change_case(s: Seq<char>, i: int)
    requires
        0 <= i < s.len(),
    ensures
        ascii_lower(s).len() == s.len(),
        ascii_upper(s).len() == s.len(),
        'A' <= s[i] <= 'Z' ==> ascii_lower(s)[i] as int == s[i] as int + 32,
        !('A' <= s[i] <= 'Z') ==> ascii_lower(s)[i] == s[i],
        'a' <= s[i] <= 'z' ==> ascii_upper(s)[i] as int == s[i] as int - 32,
        !('a' <= s[i] <= 'z') ==> ascii_upper(s)[i] == s[i],
{
    assert(ascii_lower(s)[i] == lower_char(s[i]));
    assert(ascii_upper(s)[i] == upper_char(s[i]));
}

// ---- words, pieces and places ----

proof fn lemma_word_at(w: Seq<char>, rest: Seq<char>)
    requires
        forall|i: int| 0 <= i < w.len() ==> !is_white(#[trigger] w[i]),
        rest.len() > 0 ==> is_white(rest[0]),
    ensures
        word_len(w + rest) == w.len(),
    decreases w.len(),
{
    if w.len() == 0 {
        assert(w + rest =~= rest);
    } else {
        let more = w.skip(1);
        assert((w + rest)[0] == w[0]);
        assert(!is_white(w[0]));
        assert((w + rest).skip(1) =~= more + rest);
        assert forall|i: int| 0 <= i < more.len() implies !is_white(#[trigger] more[i]) by {
            assert(more[i] == w[i + 1]);
        }
        lemma_word_at(more, rest);
    }
}

/// A text is its first word, and then the words behind it; blanks before a word
/// do not count.
pub proof fn words_stand_between_blanks(w: Seq<char>, c: char, rest: Seq<char>)
    requires
        w.len() > 0,
        forall|i: int| 0 <= i < w.len() ==> !is_white(#[trigger] w[i]),
        is_white(c),
    ensures
        words(w) == seq![w],
        words(w + seq![c] + rest) == seq![w] + words(rest),
        words(seq![c] + rest) == words(rest),
        words(Seq::<char>::empty()) == Seq::<Seq<char>>::empty(),
{
    let none = Seq::<char>::empty();
    assert(w + none =~= w);
    lemma_word_at(w, none);
    assert(!is_white(w[0]));
    assert(w.take(w.len() as int) =~= w);
    assert(w.skip(w.len() as int) =~= none);
    assert(words(none) =~= Seq::<Seq<char>>::empty());
    assert(words(w) =~= seq![w]);
    let tail = seq![c] + rest;
    assert(tail[0] == c);
    assert(tail.skip(1) =~= rest);
    let all = w + tail;
    assert(w + seq![c] + rest =~= all);
    lemma_word_at(w, tail);
    assert(all[0] == w[0]);
    assert(all.take(w.len() as int) =~= w);
    assert(all.skip(w.len() as int) =~= tail);
    assert(words(tail) == words(rest));
    assert(words(all) == seq![w] + words(tail));
}

/// Splitting undoes joining: a separator ends one piece and begins the next, and
/// a text without separators is one piece.
pub proof fn separators_part_the_pieces(
    a: Seq<char>,
    c: char,
    b: Seq<char>,
    seps: Seq<char>,
)
    requires
        forall|i: int| 0 <= i < a.len() ==> !seps.contains(#[trigger] a[i]),
        seps.contains(c),
    ensures
        split_at_any(a, seps) == seq![a],
        split_at_any(a + seq![c] + b, seps) == seq![a] + split_at_any(b, seps),
{
    let s = a + seq![c] + b;
    lemma_first_sep(a, seps);
    lemma_first_sep(s, seps);
    let n = first_sep(a, seps);
    if n < a.len() {
        assert(seps.contains(a[n]));
    }
    let k = first_sep(s, seps);
    assert(s[a.len() as int] == c);
    if k < a.len() {
        assert(s[k] == a[k]);
    }
    assert(k == a.len());
    assert(s.take(k) =~= a);
    assert(s.skip(k + 1) =~= b);
}

/// A list is written with its separator between every two of its texts.
pub proof fn texts_are_joined_in_order(first: Seq<char>, rest: Seq<Seq<char>>, sep: Seq<char>)
    ensures
        joined(Seq::<Seq<char>>::empty(), sep) == Seq::<char>::empty(),
        joined(seq![first], sep) == first,
        rest.len() > 0 ==> joined(seq![first] + rest, sep) == first + sep + joined(rest, sep),
{
    let none = Seq::<Seq<char>>::empty();
    assert(joined(none, sep) =~= Seq::<char>::empty());
    assert(seq![first].skip(1) =~= none);
    assert(joined(seq![first], sep) =~= first);
    if rest.len() > 0 {
        let all = seq![first] + rest;
        assert(all.skip(1) =~= rest);
        assert(all[0] == first);
        assert(joined_tail(rest, sep) == sep + rest[0] + joined_tail(rest.skip(1), sep));
        assert(joined(all, sep) =~= first + sep + joined(rest, sep));
    }
}

/// A text occurs in another one exactly if that is the text with something, or
/// nothing, before and behind it.
pub proof fn a_text_occurs_where_it_stands(needle: Seq<char>, hay: Seq<char>)
    ensures
        occurs(needle, hay) <==> exists|a: Seq<char>, b: Seq<char>|
            hay == #[trigger] (a + needle + b),
{
    if occurs(needle, hay) {
        let i = choose|i: int|
            0 <= i <= hay.len() - needle.len() && #[trigger] hay.subrange(i, i + needle.len())
                == needle;
        let a = hay.take(i);
        let b = hay.skip(i + needle.len());
        assert(a + needle + b =~= hay);
    }
    if exists|a: Seq<char>, b: Seq<char>| hay == #[trigger] (a + needle + b) {
        let (a, b) = choose|a: Seq<char>, b: Seq<char>| hay == #[trigger] (a + needle + b);
        let i = a.len() as int;
        assert(hay.subrange(i, i + needle.len()) =~= needle);
    }
}

/// What stands behind the last of a character is found there.
pub proof fn the_last_place_is_the_last(a: Seq<char>, c: char, b: Seq<char>)
    requires
        forall|i: int| 0 <= i < b.len() ==> #[trigger] b[i] != c,
    ensures
        last_index_of(a + seq![c] + b, c) == a.len(),
        last_index_of(b, c) == -1,
{
    let s = a + seq![c] + b;
    lemma_last_index_of(s, c);
    lemma_last_index_of(b, c);
    let k = last_index_of(s, c);
    assert(s[a.len() as int] == c);
    if k > a.len() {
        assert(s[k] == b[k - a.len() - 1]);
    }
    let j = last_index_of(b, c);
    if j >= 0 {
        assert(b[j] == c);
    }
}

/// Dropping a final character takes all of them from the end, and nothing else.
pub proof fn final_characters_go(s: Seq<char>, c: char, n: nat)
    requires
        s.len() > 0 ==> s.last() != c,
    ensures
        without_final(s + Seq::new(n, |i: int| c), c) == s,
    decreases n,
{
    let tail = Seq::new(n, |i: int| c);
    let all = s + tail;
    if n == 0 {
        assert(all =~= s);
    } else {
        let fewer = Seq::new((n - 1) as nat, |i: int| c);
        assert(all.last() == c);
        assert(all.drop_last() =~= s + fewer);
        final_characters_go(s, c, (n - 1) as nat);
    }
}

proof fn lemma_first_place(a: Seq<char>, sep: Seq<char>, b: Seq<char>)
    requires
        sep.len() > 0,
        forall|i: int| 0 <= i < a.len() ==> #[trigger] a[i] != sep[0],
    ensures
        first_place(a + sep + b, sep) == a.len(),
        first_place(a, sep) == a.len(),
    decreases a.len(),
{
    let s = a + sep + b;
    if a.len() == 0 {
        assert(s.subrange(0, sep.len() as int) =~= sep);
    } else {
        let rest = a.skip(1);
        assert forall|i: int| 0 <= i < rest.len() implies #[trigger] rest[i] != sep[0] by {
            assert(rest[i] == a[i + 1]);
        }
        lemma_first_place(rest, sep, b);
        assert(s.skip(1) =~= rest + sep + b);
        assert(s.subrange(0, sep.len() as int)[0] == a[0]);
        if a.len() >= sep.len() {
            assert(a.subrange(0, sep.len() as int)[0] == a[0]);
        } else {
            assert(first_place(a, sep) == a.len());
        }
    }
}

/// A text is split where the separator stands: what comes before it is the first
/// piece, and what comes behind it is split in turn.
pub proof fn a_text_is_split_at_its_separator(a: Seq<char>, sep: Seq<char>, b: Seq<char>)
    requires
        sep.len() > 0,
        forall|i: int| 0 <= i < a.len() ==> #[trigger] a[i] != sep[0],
    ensures
        split_at_text(a + sep + b, sep) == seq![a] + split_at_text(b, sep),
        split_at_text(a, sep) == seq![a],
        first_place(a + sep + b, sep) == a.len(),
        first_place(a, sep) == a.len(),
{
    let s = a + sep + b;
    lemma_first_place(a, sep, b);
    assert(s.take(a.len() as int) =~= a);
    assert(s.skip(a.len() as int + sep.len()) =~= b);
    assert(a.take(a.len() as int) =~= a);
}

// ---- numbers ----

/// A number is what its digits write, with or without a sign before them.
pub proof fn a_number_is_read(n: nat)
    ensures
        unsigned_number(decimal(n)) == Some(n),
        unsigned_number(seq!['+'] + decimal(n)) == Some(n),
        signed_number(decimal(n)) == Some(n as int),
        signed_number(seq!['+'] + decimal(n)) == Some(n as int),
        signed_number(seq!['-'] + decimal(n)) == Some(-(n as int)),
        unsigned_number(seq!['-'] + decimal(n)) is None,
{
    decimal_reads_back(n);
    let d = decimal(n);
    assert(is_digit(d[0]));
    let plus = seq!['+'] + d;
    let minus = seq!['-'] + d;
    assert(plus.skip(1) =~= d);
    assert(minus.skip(1) =~= d);
    assert(plus[0] == '+' && minus[0] == '-');
    assert(!all_digits(minus)) by {
        assert(!is_digit(minus[0]));
    }
}

/// The digits of a number are those of a tenth of it, and one more.
pub proof fn a_number_has_its_digits(n: nat)
    ensures
        n < 10 ==> decimal(n) == seq![('0' as nat + n) as char],
        n >= 10 ==> decimal(n) == decimal(n / 10).push(('0' as nat + n % 10) as char),
        n > 0 ==> signed_decimal(-(n as int)) == seq!['-'] + decimal(n),
        signed_decimal(n as int) == decimal(n),
{
}

/// A number is digits, with an optional sign before them: anything else is none.
pub proof fn only_digits_make_a_number(s: Seq<char>, i: int)
    requires
        0 <= i < s.len(),
        !is_digit(s[i]),
    ensures
        i > 0 ==> unsigned_number(s) is None && signed_number(s) is None,
        s[i] != '+' ==> unsigned_number(s) is None,
        s[i] != '+' && s[i] != '-' ==> signed_number(s) is None,
        unsigned_number(Seq::<char>::empty()) is None,
        signed_number(Seq::<char>::empty()) is None,
{
    if i > 0 {
        assert(s.skip(1)[i - 1] == s[i]);
        if all_digits(s.skip(1)) {
            assert(is_digit(s.skip(1)[i - 1]));
        }
    }
    if all_digits(s) {
        assert(is_digit(s[i]));
    }
}

} // verus!
