//! How bytes are written in base64.

use vstd::prelude::*;

use crate::encoding::{base64_char, base64_text};

verus! {

/// The place of a character in the alphabet of base64, if it has one.
pub open spec fn base64_place(c: char) -> Option<int> {
    if 'A' <= c <= 'Z' {
        Some(c as int - 'A' as int)
    } else if 'a' <= c <= 'z' {
        Some(c as int - 'a' as int + 26)
    } else if '0' <= c <= '9' {
        Some(c as int - '0' as int + 52)
    } else if c == '+' {
        Some(62int)
    } else if c == '/' {
        Some(63int)
    } else {
        None
    }
}

/// The alphabet has sixty-four characters: capitals, small letters, digits, and two
/// more.
pub proof fn the_alphabet_has_its_order(n: int)
    requires
        0 <= n < 64,
    ensures
        base64_place(base64_char(n)) == Some(n),
{
}

/// Three bytes are written as four characters, which have the same value; what is
/// left over at the end is filled up with `=`.
pub proof fn three_bytes_are_four_characters(a: u8, b: u8, c: u8, rest: Seq<u8>)
    ensures
        ({
            let t = base64_text(seq![a, b, c] + rest);
            &&& t.len() == 4 + base64_text(rest).len()
            &&& t.skip(4) == base64_text(rest)
            &&& base64_place(t[0]) is Some && base64_place(t[1]) is Some
            &&& base64_place(t[2]) is Some && base64_place(t[3]) is Some
            &&& a * 65_536 + b * 256 + c == base64_place(t[0])->0 * 262_144 + base64_place(t[1])->0
                * 4096 + base64_place(t[2])->0 * 64 + base64_place(t[3])->0
        }),
        ({
            let t = base64_text(seq![a, b]);
            &&& t.len() == 4 && t[3] == '='
            &&& base64_place(t[0]) is Some && base64_place(t[1]) is Some
            &&& base64_place(t[2]) is Some
            &&& (a * 256 + b) * 4 == base64_place(t[0])->0 * 4096 + base64_place(t[1])->0 * 64
                + base64_place(t[2])->0
        }),
        ({
            let t = base64_text(seq![a]);
            &&& t.len() == 4 && t[2] == '=' && t[3] == '='
            &&& base64_place(t[0]) is Some && base64_place(t[1]) is Some
            &&& a * 16 == base64_place(t[0])->0 * 64 + base64_place(t[1])->0
        }),
        base64_text(Seq::empty()) == Seq::<char>::empty(),
{
    let all = seq![a, b, c] + rest;
    assert(all.skip(3) =~= rest);
    let t = base64_text(all);
    assert(t.skip(4) =~= base64_text(rest));
    the_alphabet_has_its_order(a as int / 4);
    the_alphabet_has_its_order(a % 4 * 16 + b / 16);
    the_alphabet_has_its_order(b % 16 * 4 + c / 64);
    the_alphabet_has_its_order((c % 64) as int);
    the_alphabet_has_its_order(b % 16 * 4);
    the_alphabet_has_its_order(a % 4 * 16);
}

} // verus!
