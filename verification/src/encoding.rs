//! Base64, as clients send their credentials in.

use base64::Engine;
use vstd::prelude::*;

use crate::text::is_white;

verus! {

/// The character that stands for six bits.
pub open spec fn base64_char(n: int) -> char {
    if n < 26 {
        ('A' as int + n) as char
    } else if n < 52 {
        ('a' as int + (n - 26)) as char
    } else if n < 62 {
        ('0' as int + (n - 52)) as char
    } else if n == 62 {
        '+'
    } else {
        '/'
    }
}

/// `b` in base64, with padding.
pub open spec fn base64_text(b: Seq<u8>) -> Seq<char>
    decreases b.len(),
{
    if b.len() == 0 {
        Seq::empty()
    } else if b.len() == 1 {
        seq![base64_char(b[0] as int / 4), base64_char(b[0] % 4 * 16), '=', '=']
    } else if b.len() == 2 {
        seq![
            base64_char(b[0] as int / 4),
            base64_char(b[0] % 4 * 16 + b[1] / 16),
            base64_char(b[1] % 16 * 4),
            '=',
        ]
    } else {
        seq![
            base64_char(b[0] as int / 4),
            base64_char(b[0] % 4 * 16 + b[1] / 16),
            base64_char(b[1] % 16 * 4 + b[2] / 64),
            base64_char((b[2] % 64) as int),
        ] + base64_text(b.skip(3))
    }
}

/// The bytes whose base64 form is `s`, if there are any.
pub open spec fn base64_bytes(s: Seq<char>) -> Option<Seq<u8>> {
    if exists|b: Seq<u8>| #[trigger] base64_text(b) == s {
        Some(choose|b: Seq<u8>| #[trigger] base64_text(b) == s)
    } else {
        None
    }
}

proof fn lemma_base64_char(m: int, n: int)
    requires
        0 <= m < 64,
        0 <= n < 64,
    ensures
        base64_char(m) == base64_char(n) ==> m == n,
        base64_char(m) != '=',
{
}

/// Different bytes have different base64 forms.
pub proof fn base64_is_injective(a: Seq<u8>, b: Seq<u8>)
    requires
        base64_text(a) == base64_text(b),
    ensures
        a == b,
    decreases a.len(),
{
    let s = base64_text(a);
    let t = base64_text(b);
    if a.len() == 0 {
        assert(b.len() == 0) by {
            if b.len() > 0 {
                assert(t.len() >= 4);
            }
        }
        assert(a =~= b);
    } else if b.len() == 0 {
        assert(s.len() >= 4);
    } else {
        assert(s[0] == t[0] && s[1] == t[1] && s[2] == t[2] && s[3] == t[3]);
        lemma_base64_char(a[0] as int / 4, b[0] as int / 4);
        let a1 = if a.len() > 1 {
            a[1] as int
        } else {
            0
        };
        let b1 = if b.len() > 1 {
            b[1] as int
        } else {
            0
        };
        lemma_base64_char(a[0] % 4 * 16 + a1 / 16, b[0] % 4 * 16 + b1 / 16);
        assert(s[1] == base64_char(a[0] % 4 * 16 + a1 / 16));
        assert(t[1] == base64_char(b[0] % 4 * 16 + b1 / 16));
        assert(a[0] == b[0]);
        let a2 = if a.len() > 2 {
            a[2] as int
        } else {
            0
        };
        let b2 = if b.len() > 2 {
            b[2] as int
        } else {
            0
        };
        lemma_base64_char(a1 % 16 * 4 + a2 / 64, b1 % 16 * 4 + b2 / 64);
        lemma_base64_char(a2 % 64, b2 % 64);
        assert(a.len() > 1 ==> s[2] == base64_char(a1 % 16 * 4 + a2 / 64));
        assert(b.len() > 1 ==> t[2] == base64_char(b1 % 16 * 4 + b2 / 64));
        assert(a.len() > 2 ==> s[3] == base64_char(a2 % 64));
        assert(b.len() > 2 ==> t[3] == base64_char(b2 % 64));
        assert((a.len() > 1) == (b.len() > 1));
        assert((a.len() > 2) == (b.len() > 2));
        if a.len() > 2 {
            assert(s.skip(4) =~= base64_text(a.skip(3)));
            assert(t.skip(4) =~= base64_text(b.skip(3)));
            base64_is_injective(a.skip(3), b.skip(3));
            assert(a =~= a.take(3) + a.skip(3));
            assert(b =~= b.take(3) + b.skip(3));
            assert(a.take(3) =~= b.take(3));
        } else {
            assert(a =~= b);
        }
    }
}

/// What was encoded decodes to itself.
pub proof fn base64_decodes_what_it_encodes(b: Seq<u8>)
    ensures
        base64_bytes(base64_text(b)) == Some(b),
{
    let c = choose|c: Seq<u8>| #[trigger] base64_text(c) == base64_text(b);
    base64_is_injective(c, b);
}

/// No whitespace stands in a base64 form.
pub proof fn base64_has_no_whitespace(b: Seq<u8>)
    ensures
        forall|i: int| 0 <= i < base64_text(b).len() ==> !is_white(#[trigger] base64_text(b)[i]),
        b.len() > 0 ==> base64_text(b).len() >= 4,
    decreases b.len(),
{
    if b.len() > 2 {
        base64_has_no_whitespace(b.skip(3));
        let rest = base64_text(b.skip(3));
        assert forall|i: int| 0 <= i < base64_text(b).len() implies !is_white(
            #[trigger] base64_text(b)[i],
        ) by {
            if i >= 4 {
                assert(base64_text(b)[i] == rest[i - 4]);
            }
        }
    }
}

/// `base64::engine::general_purpose::STANDARD.decode`: the engine of the
/// standard alphabet, which requires canonical padding and refuses stray bits
/// in the last symbol. It gives the bytes that `s` encodes, and fails exactly if
/// `s` is the base64 form of no bytes.
#[verifier::external_body]
fn standard_decode(s: &str) -> (r: Option<Vec<u8>>)
    ensures
        match r {
            Some(b) => base64_text(b@) == s@,
            None => forall|b: Seq<u8>| #[trigger] base64_text(b) != s@,
        },
{
    base64::engine::general_purpose::STANDARD.decode(s).ok()
}

/// The bytes whose base64 form is `s`.
pub fn decode_base64(s: &str) -> (r: Option<Vec<u8>>)
    ensures
        match r {
            Some(b) => base64_bytes(s@) == Some(b@),
            None => base64_bytes(s@) is None,
        },
{
    let r = standard_decode(s);
    proof {
        if r is Some {
            base64_decodes_what_it_encodes(r->0@);
        }
    }
    r
}

} // verus!
