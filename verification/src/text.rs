//! Operations on text, each stated over the sequence of characters it works on.

use vstd::prelude::*;
use vstd::string::*;
use vstd::utf8::*;

verus! {

/// `String::push` of the standard library: the character goes to the end.
pub assume_specification[ String::push ](s: &mut String, c: char)
    ensures
        final(s)@ == old(s)@.push(c),
;

/// The texts that a list of strings holds.
pub open spec fn texts(v: Seq<String>) -> Seq<Seq<char>> {
    v.map_values(|s: String| s@)
}

/// The text of an optional string.
pub open spec fn opt_text(o: Option<String>) -> Option<Seq<char>> {
    match o {
        Some(s) => Some(s@),
        None => None,
    }
}

/// The text of an optional string slice.
pub open spec fn opt_str(o: Option<&str>) -> Option<Seq<char>> {
    match o {
        Some(s) => Some(s@),
        None => None,
    }
}

// ---- characters in and out ----

/// The characters of `s`, in order.
pub fn chars_of(s: &str) -> (r: Vec<char>)
    ensures
        r@ == s@,
{
    let mut v: Vec<char> = Vec::new();
    for c in it: s.chars()
        invariant
            v@ == s@.take(it.index()),
            it.seq() == s@,
    {
        v.push(c);
        assert(s@.take(it.index() + 1) =~= s@.take(it.index()).push(c));
    }
    assert(s@.take(s@.len() as int) =~= s@);
    v
}

/// The characters `from..to` as a string.
pub fn text_range(cs: &Vec<char>, from: usize, to: usize) -> (r: String)
    requires
        from <= to <= cs@.len(),
    ensures
        r@ == cs@.subrange(from as int, to as int),
{
    let mut out = String::new();
    let mut i: usize = from;
    while i < to
        invariant
            from <= i <= to <= cs@.len(),
            out@ == cs@.subrange(from as int, i as int),
        decreases to - i,
    {
        out.push(cs[i]);
        assert(cs@.subrange(from as int, i + 1) =~= cs@.subrange(from as int, i as int).push(
            cs@[i as int],
        ));
        i += 1;
    }
    out
}

/// Whether two strings hold the same text.
pub fn same(a: &str, b: &str) -> (r: bool)
    ensures
        r == (a@ == b@),
{
    let x = a.as_bytes();
    let y = b.as_bytes();
    if x.len() != y.len() {
        return false;
    }
    let mut i: usize = 0;
    while i < x.len()
        invariant
            i <= x@.len(),
            x@.len() == y@.len(),
            x@ == a.spec_bytes(),
            y@ == b.spec_bytes(),
            forall|j: int| 0 <= j < i ==> x@[j] == y@[j],
        decreases x@.len() - i,
    {
        if x[i] != y[i] {
            return false;
        }
        i += 1;
    }
    proof {
        assert(x@ =~= y@);
        encode_utf8_decode_utf8(a@);
        encode_utf8_decode_utf8(b@);
    }
    true
}

/// Whether two lists hold the same texts in the same order.
pub fn same_list(a: &Vec<String>, b: &Vec<String>) -> (r: bool)
    ensures
        r == (texts(a@) == texts(b@)),
{
    if a.len() != b.len() {
        assert(texts(a@).len() != texts(b@).len());
        return false;
    }
    let mut i: usize = 0;
    while i < a.len()
        invariant
            i <= a@.len(),
            a@.len() == b@.len(),
            forall|j: int| 0 <= j < i ==> a@[j]@ == b@[j]@,
        decreases a@.len() - i,
    {
        if !same(a[i].as_str(), b[i].as_str()) {
            assert(texts(a@)[i as int] != texts(b@)[i as int]);
            return false;
        }
        i += 1;
    }
    assert(texts(a@) =~= texts(b@));
    true
}

/// A copy of an optional string.
pub fn copy_opt(a: &Option<String>) -> (r: Option<String>)
    ensures
        opt_text(r) == opt_text(*a),
{
    match a {
        Some(s) => Some(s.clone()),
        None => None,
    }
}

/// A list of the same strings.
pub fn copy_list(a: &Vec<String>) -> (r: Vec<String>)
    ensures
        r@ == a@,
{
    let mut out: Vec<String> = Vec::new();
    let mut i: usize = 0;
    while i < a.len()
        invariant
            i <= a@.len(),
            out@ == a@.take(i as int),
        decreases a@.len() - i,
    {
        out.push(a[i].clone());
        assert(a@.take(i + 1) =~= a@.take(i as int).push(a@[i as int]));
        i += 1;
    }
    assert(a@.take(a@.len() as int) =~= a@);
    out
}

/// The number of bytes that `s` takes in UTF-8.
pub open spec fn byte_len(s: Seq<char>) -> nat {
    encode_utf8(s).len()
}

/// How many bytes `s` takes in UTF-8.
pub fn bytes_in(s: &str) -> (r: usize)
    ensures
        r == byte_len(s@),
{
    s.as_bytes().len()
}

// ---- whitespace ----

/// The Unicode `White_Space` property.
pub open spec fn is_white(c: char) -> bool {
    let u = c as u32;
    ||| 0x9 <= u <= 0xd
    ||| u == 0x20
    ||| u == 0x85
    ||| u == 0xa0
    ||| u == 0x1680
    ||| 0x2000 <= u <= 0x200a
    ||| u == 0x2028
    ||| u == 0x2029
    ||| u == 0x202f
    ||| u == 0x205f
    ||| u == 0x3000
}

/// Whether `c` has the Unicode `White_Space` property.
pub fn is_whitespace(c: char) -> (r: bool)
    ensures
        r == is_white(c),
{
    let u = c as u32;
    (0x9 <= u && u <= 0xd) || u == 0x20 || u == 0x85 || u == 0xa0 || u == 0x1680 || (0x2000 <= u
        && u <= 0x200a) || u == 0x2028 || u == 0x2029 || u == 0x202f || u == 0x205f || u == 0x3000
}

/// `s` without its leading whitespace.
pub open spec fn trimmed_start(s: Seq<char>) -> Seq<char>
    decreases s.len(),
{
    if s.len() > 0 && is_white(s[0]) {
        trimmed_start(s.skip(1))
    } else {
        s
    }
}

/// `s` without its trailing whitespace.
pub open spec fn trimmed_end(s: Seq<char>) -> Seq<char>
    decreases s.len(),
{
    if s.len() > 0 && is_white(s.last()) {
        trimmed_end(s.drop_last())
    } else {
        s
    }
}

/// `s` without whitespace at either end.
pub open spec fn trimmed(s: Seq<char>) -> Seq<char> {
    trimmed_end(trimmed_start(s))
}

/// `s` without the `c`s at its end.
pub open spec fn without_final(s: Seq<char>, c: char) -> Seq<char>
    decreases s.len(),
{
    if s.len() > 0 && s.last() == c {
        without_final(s.drop_last(), c)
    } else {
        s
    }
}

/// `s` without the `c`s at its end.
pub fn trim_final(s: &str, c: char) -> (r: String)
    ensures
        r@ == without_final(s@, c),
{
    let cs = chars_of(s);
    let mut n: usize = cs.len();
    assert(cs@.take(n as int) =~= cs@);
    while n > 0 && cs[n - 1] == c
        invariant
            n <= cs@.len(),
            without_final(cs@, c) == without_final(cs@.take(n as int), c),
        decreases n,
    {
        assert(cs@.take(n as int).drop_last() =~= cs@.take(n - 1));
        n -= 1;
    }
    assert(cs@.subrange(0, n as int) =~= cs@.take(n as int));
    text_range(&cs, 0, n)
}

/// `s` without its leading whitespace.
pub fn trim_start(s: &str) -> (r: String)
    ensures
        r@ == trimmed_start(s@),
{
    let cs = chars_of(s);
    let mut i: usize = 0;
    assert(cs@.skip(0) =~= cs@);
    while i < cs.len() && is_whitespace(cs[i])
        invariant
            i <= cs@.len(),
            trimmed_start(cs@) == trimmed_start(cs@.skip(i as int)),
        decreases cs@.len() - i,
    {
        assert(cs@.skip(i as int).skip(1) =~= cs@.skip(i + 1));
        i += 1;
    }
    assert(cs@.subrange(i as int, cs@.len() as int) =~= cs@.skip(i as int));
    text_range(&cs, i, cs.len())
}

/// `s` without its trailing whitespace.
pub fn trim_end(s: &str) -> (r: String)
    ensures
        r@ == trimmed_end(s@),
{
    let cs = chars_of(s);
    let mut n: usize = cs.len();
    assert(cs@.take(n as int) =~= cs@);
    while n > 0 && is_whitespace(cs[n - 1])
        invariant
            n <= cs@.len(),
            trimmed_end(cs@) == trimmed_end(cs@.take(n as int)),
        decreases n,
    {
        assert(cs@.take(n as int).drop_last() =~= cs@.take(n - 1));
        n -= 1;
    }
    assert(cs@.subrange(0, n as int) =~= cs@.take(n as int));
    text_range(&cs, 0, n)
}

/// `s` without whitespace at either end.
pub fn trim(s: &str) -> (r: String)
    ensures
        r@ == trimmed(s@),
{
    let t = trim_start(s);
    trim_end(t.as_str())
}

// ---- letter case ----

/// The lower-case form of an ASCII letter; any other character is itself.
pub open spec fn lower_char(c: char) -> char {
    if 'A' <= c && c <= 'Z' {
        (c as u8 + 32) as char
    } else {
        c
    }
}

/// The upper-case form of an ASCII letter; any other character is itself.
pub open spec fn upper_char(c: char) -> char {
    if 'a' <= c && c <= 'z' {
        (c as u8 - 32) as char
    } else {
        c
    }
}

/// `s` with its ASCII letters in lower case.
pub open spec fn ascii_lower(s: Seq<char>) -> Seq<char> {
    s.map_values(|c: char| lower_char(c))
}

/// `s` with its ASCII letters in upper case.
pub open spec fn ascii_upper(s: Seq<char>) -> Seq<char> {
    s.map_values(|c: char| upper_char(c))
}

fn lower_char_exec(c: char) -> (r: char)
    ensures
        r == lower_char(c),
{
    if 'A' <= c && c <= 'Z' {
        (c as u8 + 32) as char
    } else {
        c
    }
}

/// `s` with its ASCII letters in lower case.
pub fn to_ascii_lowercase(s: &str) -> (r: String)
    ensures
        r@ == ascii_lower(s@),
{
    let cs = chars_of(s);
    let mut out = String::new();
    let mut i: usize = 0;
    while i < cs.len()
        invariant
            i <= cs@.len(),
            out@ == ascii_lower(cs@.take(i as int)),
        decreases cs@.len() - i,
    {
        out.push(lower_char_exec(cs[i]));
        assert(ascii_lower(cs@.take(i + 1)) =~= ascii_lower(cs@.take(i as int)).push(
            lower_char(cs@[i as int]),
        ));
        i += 1;
    }
    assert(cs@.take(cs@.len() as int) =~= cs@);
    out
}

/// What `str::to_uppercase` returns.
pub uninterp spec fn uppercase_of(s: Seq<char>) -> Seq<char>;

/// What `str::to_lowercase` returns.
pub uninterp spec fn lowercase_of(s: Seq<char>) -> Seq<char>;

/// The upper-case form of `s`.
pub open spec fn unicode_upper(s: Seq<char>) -> Seq<char> {
    if is_ascii_chars(s) {
        ascii_upper(s)
    } else {
        uppercase_of(s)
    }
}

/// The lower-case form of `s`.
pub open spec fn unicode_lower(s: Seq<char>) -> Seq<char> {
    if is_ascii_chars(s) {
        ascii_lower(s)
    } else {
        lowercase_of(s)
    }
}

/// `str::to_uppercase` of the standard library. The result is a function of
/// the text, and for ASCII text it is the ASCII upper-case form.
#[verifier::external_body]
pub(crate) fn to_uppercase(s: &str) -> (r: String)
    ensures
        r@ == uppercase_of(s@),
        is_ascii_chars(s@) ==> r@ == ascii_upper(s@),
{
    s.to_uppercase()
}

/// `str::to_lowercase` of the standard library. The result is a function of
/// the text, and for ASCII text it is the ASCII lower-case form.
#[verifier::external_body]
pub(crate) fn to_lowercase(s: &str) -> (r: String)
    ensures
        r@ == lowercase_of(s@),
        is_ascii_chars(s@) ==> r@ == ascii_lower(s@),
{
    s.to_lowercase()
}

/// What `String::from_utf8_lossy` returns.
pub uninterp spec fn lossy_of(bytes: Seq<u8>) -> Seq<char>;

/// The text that the bytes encode, with a replacement character wherever they
/// are not UTF-8.
pub open spec fn lossy(bytes: Seq<u8>) -> Seq<char> {
    if valid_utf8(bytes) {
        decode_utf8(bytes)
    } else {
        lossy_of(bytes)
    }
}

/// `String::from_utf8_lossy` of the standard library. The result is a function
/// of the bytes, and for valid UTF-8 it is the text that they encode.
#[verifier::external_body]
pub(crate) fn from_utf8_lossy(bytes: &[u8]) -> (r: String)
    ensures
        r@ == lossy_of(bytes@),
        valid_utf8(bytes@) ==> r@ == decode_utf8(bytes@),
{
    String::from_utf8_lossy(bytes).into_owned()
}

/// The text that UTF-8 bytes encode is read back from them.
pub proof fn encoded_text_reads_back(s: Seq<char>)
    ensures
        lossy(encode_utf8(s)) == s,
{
    encode_utf8_valid_utf8(s);
    encode_utf8_decode_utf8(s);
}

proof fn lemma_scalar_bytes(c: u32)
    by (bit_vector)
    ensures
        c <= 0x7f ==> (c & 0x7F) as u8 == c,
        0x80 <= 0xC0u8 | ((c >> 6) & 0x1F) as u8,
        0x80 <= 0xE0u8 | ((c >> 12) & 0x0F) as u8,
        0x80 <= 0xF0u8 | ((c >> 18) & 0x7) as u8,
        0x80 <= 0x80u8 | (c & 0x3F) as u8,
        0x80 <= 0x80u8 | ((c >> 6) & 0x3F) as u8,
        0x80 <= 0x80u8 | ((c >> 12) & 0x3F) as u8,
{
}

proof fn lemma_codes_differ(a: char, b: char)
    ensures
        a != b ==> a as u32 != b as u32,
{
}

/// An ASCII byte stands in the UTF-8 form of a text only for its character.
pub proof fn lemma_ascii_byte_absent(s: Seq<char>, x: u8)
    requires
        x < 128,
        forall|i: int| 0 <= i < s.len() ==> s[i] != x as char,
    ensures
        forall|i: int| 0 <= i < encode_utf8(s).len() ==> encode_utf8(s)[i] != x,
    decreases s.len(),
{
    if s.len() > 0 {
        let c = s[0] as u32;
        lemma_scalar_bytes(c);
        lemma_codes_differ(s[0], x as char);
        let rest = s.drop_first();
        assert forall|i: int| 0 <= i < rest.len() implies rest[i] != x as char by {
            assert(rest[i] == s[i + 1]);
        }
        lemma_ascii_byte_absent(rest, x);
        let head = encode_scalar(c);
        assert(c != x as u32);
        assert forall|i: int| 0 <= i < head.len() implies head[i] != x by {}
        assert forall|i: int| 0 <= i < encode_utf8(s).len() implies encode_utf8(s)[i] != x by {
            if i < head.len() {
                assert(encode_utf8(s)[i] == head[i]);
            } else {
                assert(encode_utf8(s)[i] == encode_utf8(rest)[i - head.len()]);
            }
        }
    }
}

// ---- searching ----

/// Whether `s` begins with `prefix`.
pub fn starts_with(s: &str, prefix: &str) -> (r: bool)
    ensures
        r == prefix@.is_prefix_of(s@),
{
    let a = chars_of(s);
    let b = chars_of(prefix);
    if b.len() > a.len() {
        return false;
    }
    let mut i: usize = 0;
    while i < b.len()
        invariant
            i <= b@.len() <= a@.len(),
            a@ == s@,
            b@ == prefix@,
            forall|j: int| 0 <= j < i ==> a@[j] == b@[j],
        decreases b@.len() - i,
    {
        if a[i] != b[i] {
            assert(a@.subrange(0, b@.len() as int)[i as int] != b@[i as int]);
            return false;
        }
        i += 1;
    }
    assert(b@ =~= a@.subrange(0, b@.len() as int));
    true
}

/// The characters after the first `n`.
pub fn skip_chars(s: &str, n: usize) -> (r: String)
    requires
        n <= s@.len(),
    ensures
        r@ == s@.skip(n as int),
{
    let cs = chars_of(s);
    assert(cs@.subrange(n as int, cs@.len() as int) =~= cs@.skip(n as int));
    text_range(&cs, n, cs.len())
}

/// The position of the first `c` in `s`; the length of `s` if there is none.
pub open spec fn index_of(s: Seq<char>, c: char) -> int
    decreases s.len(),
{
    if s.len() == 0 || s[0] == c {
        0
    } else {
        1 + index_of(s.skip(1), c)
    }
}

/// The position of the last `c` in `s`; -1 if there is none.
pub open spec fn last_index_of(s: Seq<char>, c: char) -> int
    decreases s.len(),
{
    if s.len() == 0 {
        -1
    } else if s.last() == c {
        s.len() - 1
    } else {
        last_index_of(s.drop_last(), c)
    }
}

/// `index_of` is a position, and the first one that holds the character.
pub proof fn lemma_index_of(s: Seq<char>, c: char)
    ensures
        0 <= index_of(s, c) <= s.len(),
        index_of(s, c) < s.len() ==> s[index_of(s, c)] == c,
        forall|i: int| 0 <= i < index_of(s, c) ==> s[i] != c,
    decreases s.len(),
{
    if s.len() == 0 || s[0] == c {
    } else {
        let t = s.skip(1);
        lemma_index_of(t, c);
        assert forall|i: int| 0 <= i < index_of(s, c) implies s[i] != c by {
            if i > 0 {
                assert(t[i - 1] == s[i]);
            }
        }
    }
}

/// `last_index_of` is a position, and the last one that holds the character.
pub proof fn lemma_last_index_of(s: Seq<char>, c: char)
    ensures
        -1 <= last_index_of(s, c) < s.len(),
        last_index_of(s, c) >= 0 ==> s[last_index_of(s, c)] == c,
        forall|i: int| last_index_of(s, c) < i < s.len() ==> s[i] != c,
    decreases s.len(),
{
    if s.len() > 0 && s.last() != c {
        let t = s.drop_last();
        lemma_last_index_of(t, c);
        assert forall|i: int| last_index_of(s, c) < i < s.len() implies s[i] != c by {
            if i < s.len() - 1 {
                assert(t[i] == s[i]);
            }
        }
    }
}

/// The position of the first `c`; the length if there is none.
pub fn find_char(cs: &Vec<char>, c: char) -> (r: usize)
    ensures
        r == index_of(cs@, c),
        r <= cs@.len(),
{
    let mut i: usize = 0;
    assert(cs@.skip(0) =~= cs@);
    while i < cs.len() && cs[i] != c
        invariant
            i <= cs@.len(),
            index_of(cs@, c) == i + index_of(cs@.skip(i as int), c),
        decreases cs@.len() - i,
    {
        assert(cs@.skip(i as int).skip(1) =~= cs@.skip(i + 1));
        i += 1;
    }
    i
}

/// The position of the last `c`, or `None` if there is none.
pub fn rfind_char(cs: &Vec<char>, c: char) -> (r: Option<usize>)
    ensures
        match r {
            Some(i) => i == last_index_of(cs@, c) && i < cs@.len(),
            None => last_index_of(cs@, c) == -1,
        },
{
    let mut n: usize = cs.len();
    assert(cs@.take(n as int) =~= cs@);
    while n > 0
        invariant
            n <= cs@.len(),
            last_index_of(cs@, c) == last_index_of(cs@.take(n as int), c),
        decreases n,
    {
        if cs[n - 1] == c {
            return Some(n - 1);
        }
        assert(cs@.take(n as int).drop_last() =~= cs@.take(n - 1));
        n -= 1;
    }
    None
}

/// Whether `needle` occurs in `hay`.
pub open spec fn occurs(needle: Seq<char>, hay: Seq<char>) -> bool {
    exists|i: int|
        0 <= i <= hay.len() - needle.len() && #[trigger] hay.subrange(i, i + needle.len())
            == needle
}

/// Whether `needle` stands in `hay` at position `at`.
fn stands_at(hay: &Vec<char>, needle: &Vec<char>, at: usize) -> (r: bool)
    requires
        at + needle@.len() <= hay@.len(),
    ensures
        r == (hay@.subrange(at as int, at + needle@.len()) == needle@),
{
    let mut i: usize = 0;
    while i < needle.len()
        invariant
            i <= needle@.len(),
            at + needle.len() <= hay.len(),
            forall|j: int| 0 <= j < i ==> hay@[at + j] == needle@[j],
        decreases needle@.len() - i,
    {
        let c = hay[at + i];
        if c != needle[i] {
            assert(hay@.subrange(at as int, at + needle@.len())[i as int] != needle@[i as int]);
            return false;
        }
        i += 1;
    }
    assert(hay@.subrange(at as int, at + needle@.len()) =~= needle@);
    true
}

/// Whether `needle` occurs in `hay`.
pub fn contains_text(hay: &str, needle: &str) -> (r: bool)
    ensures
        r == occurs(needle@, hay@),
{
    let h = chars_of(hay);
    let n = chars_of(needle);
    if n.len() > h.len() {
        return false;
    }
    let last: usize = h.len() - n.len();
    let mut i: usize = 0;
    while i <= last
        invariant
            n@.len() <= h@.len(),
            h@ == hay@,
            n@ == needle@,
            last == h@.len() - n@.len(),
            i <= last + 1,
            forall|j: int| 0 <= j < i ==> #[trigger] h@.subrange(j, j + n@.len()) != n@,
        decreases last + 1 - i,
    {
        if stands_at(&h, &n, i) {
            return true;
        }
        if i == last {
            return false;
        }
        i += 1;
    }
    false
}

/// The position of the first `needle` in `hay`; the length of `hay` if there is
/// none.
pub open spec fn first_place(hay: Seq<char>, needle: Seq<char>) -> int
    decreases hay.len(),
{
    if hay.len() < needle.len() || hay.len() == 0 {
        hay.len() as int
    } else if hay.subrange(0, needle.len() as int) == needle {
        0
    } else {
        1 + first_place(hay.skip(1), needle)
    }
}

/// The position of the first `needle` at or after `from`; the length of `hay` if
/// there is none.
fn find_text(hay: &Vec<char>, from: usize, needle: &Vec<char>) -> (r: usize)
    requires
        from <= hay@.len(),
        needle@.len() > 0,
    ensures
        from <= r <= hay@.len(),
        r == from + first_place(hay@.skip(from as int), needle@),
        r < hay@.len() ==> r + needle@.len() <= hay@.len(),
{
    let mut i: usize = from;
    while i < hay.len() && hay.len() - i >= needle.len()
        invariant
            from <= i <= hay@.len(),
            needle@.len() > 0,
            first_place(hay@.skip(from as int), needle@) == i - from + first_place(
                hay@.skip(i as int),
                needle@,
            ),
        decreases hay@.len() - i,
    {
        assert(hay@.skip(i as int).subrange(0, needle@.len() as int) =~= hay@.subrange(
            i as int,
            i + needle@.len(),
        ));
        if stands_at(hay, needle, i) {
            return i;
        }
        assert(hay@.skip(i as int).skip(1) =~= hay@.skip(i + 1));
        i += 1;
    }
    hay.len()
}

// ---- splitting and joining ----

/// The pieces of `s` between the `sep`s.
pub open spec fn split_at_text(s: Seq<char>, sep: Seq<char>) -> Seq<Seq<char>>
    decreases s.len(),
{
    let i = first_place(s, sep);
    if 0 <= i && i + sep.len() <= s.len() && sep.len() > 0 {
        seq![s.take(i)] + split_at_text(s.skip(i + sep.len()), sep)
    } else {
        seq![s]
    }
}

/// The pieces of `s` between the `sep`s.
pub fn split_text(s: &str, sep: &str) -> (r: Vec<String>)
    requires
        sep@.len() > 0,
    ensures
        texts(r@) == split_at_text(s@, sep@),
{
    let cs = chars_of(s);
    let ss = chars_of(sep);
    let mut out: Vec<String> = Vec::new();
    let mut start: usize = 0;
    let mut at = find_text(&cs, 0, &ss);
    assert(cs@.skip(0) =~= cs@);
    assert(texts(out@) + split_at_text(cs@, sep@) =~= split_at_text(cs@, sep@));
    while at < cs.len()
        invariant
            start <= at <= cs@.len(),
            ss@ == sep@,
            sep@.len() > 0,
            at == start + first_place(cs@.skip(start as int), sep@),
            at < cs@.len() ==> at + ss.len() <= cs.len(),
            split_at_text(cs@, sep@) == texts(out@) + split_at_text(cs@.skip(start as int), sep@),
        decreases cs@.len() - start,
    {
        let ghost before = out@;
        let ghost rest = cs@.skip(start as int);
        out.push(text_range(&cs, start, at));
        proof {
            assert(rest.take(at - start) =~= cs@.subrange(start as int, at as int));
            assert(rest.skip(at - start + sep@.len()) =~= cs@.skip(at + sep@.len()));
            assert(texts(out@) =~= texts(before).push(rest.take(at - start)));
            assert(texts(before) + (seq![rest.take(at - start)] + split_at_text(
                cs@.skip(at + sep@.len()),
                sep@,
            )) =~= texts(out@) + split_at_text(cs@.skip(at + sep@.len()), sep@));
        }
        start = at + ss.len();
        at = find_text(&cs, start, &ss);
    }
    let ghost before = out@;
    let ghost rest = cs@.skip(start as int);
    out.push(text_range(&cs, start, cs.len()));
    proof {
        assert(cs@.subrange(start as int, cs@.len() as int) =~= rest);
        assert(texts(out@) =~= texts(before) + seq![rest]);
    }
    out
}

/// What stands in `s` before the first `sep`: all of it if there is none.
pub fn before_text(s: &str, sep: &str) -> (r: String)
    requires
        sep@.len() > 0,
    ensures
        r@ == s@.take(first_place(s@, sep@)),
{
    let cs = chars_of(s);
    let ss = chars_of(sep);
    let at = find_text(&cs, 0, &ss);
    assert(cs@.skip(0) =~= cs@);
    assert(cs@.subrange(0, at as int) =~= cs@.take(at as int));
    text_range(&cs, 0, at)
}

/// The position of the first character of `s` that is one of `seps`; the
/// length of `s` if there is none.
pub open spec fn first_sep(s: Seq<char>, seps: Seq<char>) -> int
    decreases s.len(),
{
    if s.len() == 0 || seps.contains(s[0]) {
        0
    } else {
        1 + first_sep(s.skip(1), seps)
    }
}

/// `first_sep` is a position, and the first one that holds a separator.
pub proof fn lemma_first_sep(s: Seq<char>, seps: Seq<char>)
    ensures
        0 <= first_sep(s, seps) <= s.len(),
        first_sep(s, seps) < s.len() ==> seps.contains(s[first_sep(s, seps)]),
        forall|i: int| 0 <= i < first_sep(s, seps) ==> !seps.contains(#[trigger] s[i]),
    decreases s.len(),
{
    if s.len() == 0 || seps.contains(s[0]) {
    } else {
        let t = s.skip(1);
        lemma_first_sep(t, seps);
        assert forall|i: int| 0 <= i < first_sep(s, seps) implies !seps.contains(
            #[trigger] s[i],
        ) by {
            if i > 0 {
                assert(t[i - 1] == s[i]);
            }
        }
    }
}

/// The pieces of `s` between the characters that are among `seps`. There is
/// always at least one piece, and pieces may be empty.
pub open spec fn split_at_any(s: Seq<char>, seps: Seq<char>) -> Seq<Seq<char>>
    decreases s.len(),
{
    let i = first_sep(s, seps);
    if 0 <= i < s.len() {
        seq![s.take(i)] + split_at_any(s.skip(i + 1), seps)
    } else {
        seq![s]
    }
}

fn is_among(c: char, seps: &[char]) -> (r: bool)
    ensures
        r == seps@.contains(c),
{
    let mut i: usize = 0;
    while i < seps.len()
        invariant
            i <= seps@.len(),
            forall|j: int| 0 <= j < i ==> seps@[j] != c,
        decreases seps@.len() - i,
    {
        if seps[i] == c {
            return true;
        }
        i += 1;
    }
    false
}

/// The pieces of `s` between the characters that are among `seps`.
pub fn split_any(s: &str, seps: &[char]) -> (r: Vec<String>)
    ensures
        texts(r@) == split_at_any(s@, seps@),
{
    let cs = chars_of(s);
    let mut out: Vec<String> = Vec::new();
    let mut start: usize = 0;
    let mut i: usize = 0;
    assert(cs@.skip(0) =~= cs@);
    assert(texts(out@) + split_at_any(cs@, seps@) =~= split_at_any(cs@, seps@));
    while i < cs.len()
        invariant
            start <= i <= cs@.len(),
            split_at_any(cs@, seps@) == texts(out@) + split_at_any(cs@.skip(start as int), seps@),
            first_sep(cs@.skip(start as int), seps@) == (i - start) + first_sep(
                cs@.skip(i as int),
                seps@,
            ),
        decreases cs@.len() - i,
    {
        if is_among(cs[i], seps) {
            let ghost before = out@;
            let ghost rest = cs@.skip(start as int);
            out.push(text_range(&cs, start, i));
            proof {
                assert(cs@.skip(i as int)[0] == cs@[i as int]);
                assert(first_sep(rest, seps@) == i - start);
                assert(rest.take(i - start) =~= cs@.subrange(start as int, i as int));
                assert(rest.skip(i - start + 1) =~= cs@.skip(i + 1));
                assert(texts(out@) =~= texts(before).push(rest.take(i - start)));
                assert(texts(before) + (seq![rest.take(i - start)] + split_at_any(
                    cs@.skip(i + 1),
                    seps@,
                )) =~= texts(out@) + split_at_any(cs@.skip(i + 1), seps@));
            }
            i += 1;
            start = i;
        } else {
            assert(cs@.skip(i as int).skip(1) =~= cs@.skip(i + 1));
            assert(cs@.skip(i as int)[0] == cs@[i as int]);
            i += 1;
        }
    }
    let ghost before = out@;
    let ghost rest = cs@.skip(start as int);
    out.push(text_range(&cs, start, cs.len()));
    proof {
        assert(cs@.skip(i as int).len() == 0);
        assert(cs@.subrange(start as int, cs@.len() as int) =~= rest);
        assert(first_sep(rest, seps@) == rest.len());
        assert(texts(out@) =~= texts(before) + seq![rest]);
    }
    out
}

/// `sep` and then each text of `list`, with `sep` between them.
pub open spec fn joined_tail(list: Seq<Seq<char>>, sep: Seq<char>) -> Seq<char>
    decreases list.len(),
{
    if list.len() == 0 {
        Seq::empty()
    } else {
        sep + list[0] + joined_tail(list.skip(1), sep)
    }
}

/// The texts of `list` with `sep` between them.
pub open spec fn joined(list: Seq<Seq<char>>, sep: Seq<char>) -> Seq<char> {
    if list.len() == 0 {
        Seq::empty()
    } else {
        list[0] + joined_tail(list.skip(1), sep)
    }
}

/// The strings of `list` with `sep` between them.
pub fn join(list: &Vec<String>, sep: &str) -> (r: String)
    ensures
        r@ == joined(texts(list@), sep@),
{
    let mut out = String::new();
    if list.len() == 0 {
        return out;
    }
    out.append(list[0].as_str());
    let mut i: usize = 1;
    let ghost all = texts(list@);
    assert(out@ =~= all[0]);
    while i < list.len()
        invariant
            1 <= i <= list@.len(),
            all == texts(list@),
            joined(all, sep@) == out@ + joined_tail(all.skip(i as int), sep@),
        decreases list@.len() - i,
    {
        let ghost before = out@;
        out.append(sep);
        out.append(list[i].as_str());
        proof {
            assert(all.skip(i as int)[0] == all[i as int]);
            assert(all.skip(i as int).skip(1) =~= all.skip(i + 1));
            assert(before + (sep@ + all[i as int] + joined_tail(all.skip(i + 1), sep@)) =~= out@
                + joined_tail(all.skip(i + 1), sep@));
        }
        i += 1;
    }
    assert(all.skip(i as int).len() == 0);
    assert(out@ + joined_tail(all.skip(i as int), sep@) =~= out@);
    out
}

/// The whitespace-separated words of `s`.
pub open spec fn words(s: Seq<char>) -> Seq<Seq<char>>
    decreases s.len(),
{
    if s.len() == 0 {
        Seq::empty()
    } else if is_white(s[0]) {
        words(s.skip(1))
    } else {
        let n = word_len(s);
        if 0 < n <= s.len() {
            seq![s.take(n)] + words(s.skip(n))
        } else {
            Seq::empty()
        }
    }
}

/// How many characters stand before the first whitespace of `s`.
pub open spec fn word_len(s: Seq<char>) -> int
    decreases s.len(),
{
    if s.len() == 0 || is_white(s[0]) {
        0
    } else {
        1 + word_len(s.skip(1))
    }
}

proof fn lemma_word_len(s: Seq<char>)
    ensures
        0 <= word_len(s) <= s.len(),
        forall|i: int| 0 <= i < word_len(s) ==> !is_white(#[trigger] s[i]),
        word_len(s) < s.len() ==> is_white(s[word_len(s)]),
    decreases s.len(),
{
    if s.len() > 0 && !is_white(s[0]) {
        let t = s.skip(1);
        lemma_word_len(t);
        assert forall|i: int| 0 <= i < word_len(s) implies !is_white(#[trigger] s[i]) by {
            if i > 0 {
                assert(t[i - 1] == s[i]);
            }
        }
    }
}

/// The whitespace-separated words of `s`.
pub fn split_whitespace(s: &str) -> (r: Vec<String>)
    ensures
        texts(r@) == words(s@),
{
    let cs = chars_of(s);
    let mut out: Vec<String> = Vec::new();
    let mut i: usize = 0;
    assert(cs@.skip(0) =~= cs@);
    assert(texts(out@) + words(cs@) =~= words(cs@));
    while i < cs.len()
        invariant
            i <= cs@.len(),
            words(cs@) == texts(out@) + words(cs@.skip(i as int)),
        decreases cs@.len() - i,
    {
        if is_whitespace(cs[i]) {
            assert(cs@.skip(i as int).skip(1) =~= cs@.skip(i + 1));
            i += 1;
        } else {
            let ghost rest = cs@.skip(i as int);
            let ghost before = out@;
            let start: usize = i;
            assert(rest.skip(0) =~= rest);
            while i < cs.len() && !is_whitespace(cs[i])
                invariant
                    start <= i <= cs@.len(),
                    rest == cs@.skip(start as int),
                    word_len(rest) == (i - start) + word_len(rest.skip(i - start)),
                decreases cs@.len() - i,
            {
                assert(rest.skip(i - start).skip(1) =~= rest.skip(i - start + 1));
                assert(rest.skip(i - start)[0] == cs@[i as int]);
                i += 1;
            }
            out.push(text_range(&cs, start, i));
            proof {
                lemma_word_len(rest);
                let n = i - start;
                if i < cs@.len() {
                    assert(rest.skip(n)[0] == cs@[i as int]);
                } else {
                    assert(rest.skip(n).len() == 0);
                }
                assert(word_len(rest) == n);
                assert(rest[0] == cs@[start as int]);
                if n == 0 {
                    assert(is_white(rest[0]));
                }
                assert(rest.take(n) =~= cs@.subrange(start as int, i as int));
                assert(rest.skip(n) =~= cs@.skip(i as int));
                assert(texts(out@) =~= texts(before).push(rest.take(n)));
                assert(texts(before) + (seq![rest.take(n)] + words(cs@.skip(i as int)))
                    =~= texts(out@) + words(cs@.skip(i as int)));
            }
        }
    }
    assert(cs@.skip(i as int).len() == 0);
    assert(texts(out@) + words(cs@.skip(i as int)) =~= texts(out@));
    out
}

// ---- decimal numbers ----

/// The character of a decimal digit.
pub open spec fn digit_char(d: nat) -> char {
    (48 + d) as char
}

/// Whether `c` is a decimal digit of ASCII.
pub open spec fn is_digit(c: char) -> bool {
    '0' <= c && c <= '9'
}

/// The value of a decimal digit.
pub open spec fn digit_value(c: char) -> nat {
    (c as nat - 48) as nat
}

/// `n` in decimal.
pub open spec fn decimal(n: nat) -> Seq<char>
    decreases n,
{
    if n < 10 {
        seq![digit_char(n)]
    } else {
        decimal(n / 10).push(digit_char(n % 10))
    }
}

/// `n` in decimal, with a minus sign if it is negative.
pub open spec fn signed_decimal(n: int) -> Seq<char> {
    if n < 0 {
        seq!['-'] + decimal((-n) as nat)
    } else {
        decimal(n as nat)
    }
}

/// `n` in decimal.
pub fn show_u128(n: u128) -> (r: String)
    ensures
        r@ == decimal(n as nat),
    decreases n,
{
    let d = (n % 10) as u8;
    let c = (48 + d) as char;
    if n < 10 {
        let mut out = String::new();
        out.push(c);
        assert(out@ =~= seq![digit_char(n as nat)]);
        out
    } else {
        let mut out = show_u128(n / 10);
        out.push(c);
        out
    }
}

/// `n` in decimal.
pub fn show_u64(n: u64) -> (r: String)
    ensures
        r@ == decimal(n as nat),
{
    show_u128(n as u128)
}

/// `n` in decimal.
pub fn show_usize(n: usize) -> (r: String)
    ensures
        r@ == decimal(n as nat),
{
    show_u128(n as u128)
}

/// `n` in decimal, with a minus sign if it is negative.
pub fn show_i64(n: i64) -> (r: String)
    ensures
        r@ == signed_decimal(n as int),
{
    if n < 0 {
        let mut out = String::new();
        out.push('-');
        let m = show_u128((-(n as i128)) as u128);
        out.append(m.as_str());
        assert(out@ =~= seq!['-'] + decimal((-n) as nat));
        out
    } else {
        show_u128(n as u128)
    }
}

/// Whether `s` is made of decimal digits alone.
pub open spec fn all_digits(s: Seq<char>) -> bool {
    forall|i: int| 0 <= i < s.len() ==> is_digit(#[trigger] s[i])
}

/// The number that a run of digits writes.
pub open spec fn digits_value(s: Seq<char>) -> nat
    decreases s.len(),
{
    if s.len() == 0 {
        0
    } else {
        digits_value(s.drop_last()) * 10 + digit_value(s.last())
    }
}

/// The number that `s` writes as an optional plus sign and decimal digits.
pub open spec fn unsigned_number(s: Seq<char>) -> Option<nat> {
    let t = if s.len() > 0 && s[0] == '+' {
        s.skip(1)
    } else {
        s
    };
    if t.len() > 0 && all_digits(t) {
        Some(digits_value(t))
    } else {
        None
    }
}

/// The number that `s` writes as an optional sign and decimal digits.
pub open spec fn signed_number(s: Seq<char>) -> Option<int> {
    if s.len() > 0 && s[0] == '-' {
        let t = s.skip(1);
        if t.len() > 0 && all_digits(t) {
            Some(-(digits_value(t) as int))
        } else {
            None
        }
    } else {
        match unsigned_number(s) {
            Some(n) => Some(n as int),
            None => None,
        }
    }
}

proof fn lemma_digits_value_grows(s: Seq<char>, n: int)
    requires
        0 <= n <= s.len(),
    ensures
        digits_value(s.take(n)) <= digits_value(s),
    decreases s.len() - n,
{
    if n == s.len() {
        assert(s.take(n) =~= s);
    } else {
        lemma_digits_value_grows(s, n + 1);
        assert(s.take(n + 1).drop_last() =~= s.take(n));
    }
}

/// The value of the digits from `from` on, up to a limit.
fn read_digits(cs: &Vec<char>, from: usize, limit: u128) -> (r: Option<u128>)
    requires
        from <= cs@.len(),
        limit <= u64::MAX + 1,
    ensures
        ({
            let t = cs@.skip(from as int);
            match r {
                Some(v) => t.len() > 0 && all_digits(t) && v == digits_value(t) && v <= limit,
                None => !(t.len() > 0 && all_digits(t)) || digits_value(t) > limit,
            }
        }),
{
    let ghost t = cs@.skip(from as int);
    if from == cs.len() {
        return None;
    }
    let mut v: u128 = 0;
    let mut i: usize = from;
    while i < cs.len()
        invariant
            from <= i <= cs@.len(),
            t == cs@.skip(from as int),
            v <= limit <= u64::MAX + 1,
            all_digits(t.take(i - from)),
            v == digits_value(t.take(i - from)),
        decreases cs@.len() - i,
    {
        let c = cs[i];
        assert(t[i - from] == c);
        if !('0' <= c && c <= '9') {
            assert(!is_digit(t[i - from]));
            return None;
        }
        let d = (c as u32 - 48) as u128;
        v = v * 10 + d;
        proof {
            let n = i - from;
            assert(t.take(n + 1).drop_last() =~= t.take(n));
            assert(t.take(n + 1).last() == c);
            assert forall|j: int| 0 <= j < t.take(n + 1).len() implies is_digit(
                #[trigger] t.take(n + 1)[j],
            ) by {
                if j < n {
                    assert(t.take(n)[j] == t.take(n + 1)[j]);
                }
            }
            if v > limit {
                lemma_digits_value_grows(t, n + 1);
            }
        }
        i += 1;
        if v > limit {
            return None;
        }
    }
    assert(t.take(i - from) =~= t);
    Some(v)
}

/// Reads a `u64`: an optional plus sign and decimal digits.
pub fn parse_u64(s: &str) -> (r: Option<u64>)
    ensures
        r == (match unsigned_number(s@) {
            Some(n) => if n <= u64::MAX { Some(n as u64) } else { None },
            None => None,
        }),
{
    let cs = chars_of(s);
    let from: usize = if cs.len() > 0 && cs[0] == '+' {
        1
    } else {
        0
    };
    assert(cs@.skip(0) =~= cs@);
    match read_digits(&cs, from, u64::MAX as u128) {
        Some(v) => Some(v as u64),
        None => None,
    }
}

/// Reads a `usize`: an optional plus sign and decimal digits.
pub fn parse_usize(s: &str) -> (r: Option<usize>)
    ensures
        r == (match unsigned_number(s@) {
            Some(n) => if n <= usize::MAX { Some(n as usize) } else { None },
            None => None,
        }),
{
    match parse_u64(s) {
        Some(v) => if v <= usize::MAX as u64 {
            Some(v as usize)
        } else {
            None
        },
        None => None,
    }
}

/// Reads a `u32`: an optional plus sign and decimal digits.
pub fn parse_u32(s: &str) -> (r: Option<u32>)
    ensures
        r == (match unsigned_number(s@) {
            Some(n) => if n <= u32::MAX { Some(n as u32) } else { None },
            None => None,
        }),
{
    match parse_u64(s) {
        Some(v) => if v <= u32::MAX as u64 {
            Some(v as u32)
        } else {
            None
        },
        None => None,
    }
}

/// Reads a `u16`: an optional plus sign and decimal digits.
pub fn parse_u16(s: &str) -> (r: Option<u16>)
    ensures
        r == (match unsigned_number(s@) {
            Some(n) => if n <= u16::MAX { Some(n as u16) } else { None },
            None => None,
        }),
{
    match parse_u64(s) {
        Some(v) => if v <= u16::MAX as u64 {
            Some(v as u16)
        } else {
            None
        },
        None => None,
    }
}

/// Reads an `i64`: an optional sign and decimal digits.
pub fn parse_i64(s: &str) -> (r: Option<i64>)
    ensures
        r == (match signed_number(s@) {
            Some(n) => if i64::MIN <= n <= i64::MAX { Some(n as i64) } else { None },
            None => None,
        }),
{
    let cs = chars_of(s);
    assert(cs@.skip(0) =~= cs@);
    if cs.len() > 0 && cs[0] == '-' {
        match read_digits(&cs, 1, 0x8000_0000_0000_0000) {
            Some(v) => Some((-(v as i128)) as i64),
            None => None,
        }
    } else {
        let from: usize = if cs.len() > 0 && cs[0] == '+' {
            1
        } else {
            0
        };
        match read_digits(&cs, from, i64::MAX as u128) {
            Some(v) => Some(v as i64),
            None => None,
        }
    }
}

/// Reading back what `decimal` wrote gives the number again.
pub proof fn decimal_reads_back(n: nat)
    ensures
        decimal(n).len() > 0,
        all_digits(decimal(n)),
        digits_value(decimal(n)) == n,
        unsigned_number(decimal(n)) == Some(n),
    decreases n,
{
    if n < 10 {
        let s = decimal(n);
        assert(s.drop_last() =~= Seq::<char>::empty());
        assert(s.last() == digit_char(n));
        assert(digits_value(s.drop_last()) == 0);
    } else {
        decimal_reads_back(n / 10);
        let s = decimal(n);
        assert(s.drop_last() =~= decimal(n / 10));
        assert(s.last() == digit_char(n % 10));
    }
}

/// Reading back what `signed_decimal` wrote gives the number again.
pub proof fn signed_decimal_reads_back(n: int)
    ensures
        signed_number(signed_decimal(n)) == Some(n),
{
    if n < 0 {
        decimal_reads_back((-n) as nat);
        assert((seq!['-'] + decimal((-n) as nat)).skip(1) =~= decimal((-n) as nat));
    } else {
        decimal_reads_back(n as nat);
        assert(is_digit(decimal(n as nat)[0]));
    }
}

} // verus!
