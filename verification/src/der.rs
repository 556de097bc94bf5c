//! Finding the issuer's organisation in a certificate.
//!
//! A certificate is a tree of DER elements: a tag, a length and the content. These
//! functions walk to the elements they need by the lengths, and check no more of
//! the rest than that.

use vstd::prelude::*;

use crate::bytes::byte_range;

verus! {

/// The number that bytes write, the highest byte first.
pub open spec fn big_endian(b: Seq<u8>) -> nat
    decreases b.len(),
{
    if b.len() == 0 {
        0
    } else {
        256 * big_endian(b.drop_last()) + b.last() as nat
    }
}

/// Where the content of an element begins and ends, given where it begins and how
/// long it says it is.
pub open spec fn content(b: Seq<u8>, from: int, len: nat) -> Option<(int, int)> {
    if from + len <= b.len() {
        Some((from, from + len))
    } else {
        None
    }
}

/// Where the content of the element at `i` begins and ends. Its tag is one byte;
/// its length is one byte below 128, or a count of up to four bytes and those.
pub open spec fn element_at(b: Seq<u8>, i: int) -> Option<(int, int)> {
    if i < 0 || i + 2 > b.len() {
        None
    } else if b[i + 1] < 128 {
        content(b, i + 2, b[i + 1] as nat)
    } else {
        let k = b[i + 1] - 128;
        if 1 <= k <= 4 && i + 2 + k <= b.len() {
            content(b, i + 2 + k, big_endian(b.subrange(i + 2, i + 2 + k)))
        } else {
            None
        }
    }
}

/// Where the content of the element at `i` begins and ends.
fn element(b: &[u8], i: usize) -> (r: Option<(usize, usize)>)
    ensures
        match r {
            Some((from, to)) => element_at(b@, i as int) == Some((from as int, to as int)) && i + 2
                <= from <= to <= b@.len(),
            None => element_at(b@, i as int) is None,
        },
{
    let n = b.len();
    if i >= n || n - i < 2 {
        return None;
    }
    let first = b[i + 1];
    if first < 128 {
        let len = first as usize;
        let from = i + 2;
        return if len <= n - from {
            Some((from, from + len))
        } else {
            None
        };
    }
    let k = (first - 128) as usize;
    if k < 1 || k > 4 || k > n - i - 2 {
        return None;
    }
    let from = i + 2 + k;
    let ghost digits = b@.subrange(i + 2, i + 2 + k);
    let mut len: u64 = 0;
    let mut j: usize = 0;
    while j < k
        invariant
            j <= k <= 4,
            i + 2 + k <= n == b@.len(),
            digits == b@.subrange(i + 2, i + 2 + k),
            len == big_endian(digits.take(j as int)),
            j == 0 ==> len == 0,
            j == 1 ==> len < 0x100,
            j == 2 ==> len < 0x1_0000,
            j == 3 ==> len < 0x100_0000,
            j == 4 ==> len < 0x1_0000_0000,
        decreases k - j,
    {
        assert(digits.take(j + 1).drop_last() =~= digits.take(j as int));
        assert(digits.take(j + 1).last() == b@[i + 2 + j]);
        len = len * 256 + b[i + 2 + j] as u64;
        j += 1;
    }
    assert(digits.take(k as int) =~= digits);
    if len <= (n - from) as u64 {
        Some((from, from + len as usize))
    } else {
        None
    }
}

/// Where the content of the element at `i` begins.
pub open spec fn inside(b: Seq<u8>, i: Option<int>) -> Option<int> {
    match i {
        Some(at) => match element_at(b, at) {
            Some((from, _)) => Some(from),
            None => None,
        },
        None => None,
    }
}

/// What stands behind the element at `i`.
pub open spec fn after(b: Seq<u8>, i: Option<int>) -> Option<int> {
    match i {
        Some(at) => match element_at(b, at) {
            Some((_, to)) => Some(to),
            None => None,
        },
        None => None,
    }
}

/// Where the first field of a certificate's signed part stands: the version, or
/// the serial number if there is none.
pub open spec fn first_field(cert: Seq<u8>) -> Option<int> {
    inside(cert, inside(cert, Some(0)))
}

/// Where the serial number of a certificate stands.
pub open spec fn serial_at(cert: Seq<u8>) -> Option<int> {
    match first_field(cert) {
        Some(i) if 0 <= i < cert.len() && cert[i] == 0xa0 => after(cert, Some(i)),
        other => other,
    }
}

/// Where the issuer of a certificate stands: behind the serial number and the
/// signature algorithm.
pub open spec fn issuer_at(cert: Seq<u8>) -> Option<int> {
    after(cert, after(cert, serial_at(cert)))
}

/// The value of the attribute whose fields begin at `i`, if it is an organisation
/// name: behind the object identifier 2.5.4.10 comes the text.
pub open spec fn organisation_of(b: Seq<u8>, i: int) -> Option<Seq<u8>> {
    match element_at(b, i) {
        Some((from, to)) if b.subrange(from, to) == seq![85u8, 4u8, 10u8] => match element_at(b, to) {
            Some((start, end)) => Some(b.subrange(start, end)),
            None => None,
        },
        _ => None,
    }
}

/// The first organisation name among the attributes from `i` to `end`. None of them
/// may reach further.
pub open spec fn organisation_among(b: Seq<u8>, i: int, end: int) -> Option<Seq<u8>>
    decreases end - i,
{
    if i >= end {
        None
    } else {
        match element_at(b, i) {
            Some((from, to)) => if to <= i || to > end {
                None
            } else if organisation_of(b, from) is Some {
                organisation_of(b, from)
            } else {
                organisation_among(b, to, end)
            },
            None => None,
        }
    }
}

/// The first organisation name in the sets of attributes from `i` to `end`. None of
/// them may reach further.
pub open spec fn organisation_in(b: Seq<u8>, i: int, end: int) -> Option<Seq<u8>>
    decreases end - i,
{
    if i >= end {
        None
    } else {
        match element_at(b, i) {
            Some((from, to)) => if to <= i || to > end {
                None
            } else if organisation_among(b, from, to) is Some {
                organisation_among(b, from, to)
            } else {
                organisation_in(b, to, end)
            },
            None => None,
        }
    }
}

/// The organisation of a certificate's issuer.
pub open spec fn organisation_of_issuer(cert: Seq<u8>) -> Option<Seq<u8>> {
    match issuer_at(cert) {
        Some(i) => match element_at(cert, i) {
            Some((from, to)) => organisation_in(cert, from, to),
            None => None,
        },
        None => None,
    }
}

fn attribute_organisation(b: &[u8], i: usize) -> (r: Option<Vec<u8>>)
    ensures
        match r {
            Some(name) => organisation_of(b@, i as int) == Some(name@),
            None => organisation_of(b@, i as int) is None,
        },
{
    let (from, to) = match element(b, i) {
        Some(e) => e,
        None => return None,
    };
    let ghost oid = b@.subrange(from as int, to as int);
    if to - from != 3 {
        assert(oid.len() != 3);
        return None;
    }
    if b[from] != 85 || b[from + 1] != 4 || b[from + 2] != 10 {
        assert(oid[0] != 85 || oid[1] != 4 || oid[2] != 10);
        return None;
    }
    assert(oid =~= seq![85u8, 4u8, 10u8]);
    match element(b, to) {
        Some((start, end)) => Some(byte_range(b, start, end)),
        None => None,
    }
}

fn set_organisation(b: &[u8], from: usize, end: usize) -> (r: Option<Vec<u8>>)
    ensures
        match r {
            Some(name) => organisation_among(b@, from as int, end as int) == Some(name@),
            None => organisation_among(b@, from as int, end as int) is None,
        },
{
    let mut i: usize = from;
    while i < end
        invariant
            organisation_among(b@, from as int, end as int) == organisation_among(
                b@,
                i as int,
                end as int,
            ),
        decreases end - i,
    {
        match element(b, i) {
            Some((start, to)) => {
                if to > end {
                    return None;
                }
                let found = attribute_organisation(b, start);
                if found.is_some() {
                    return found;
                }
                i = to;
            },
            None => return None,
        }
    }
    None
}

/// The organisation of a certificate's issuer; `None` if the issuer names none, or
/// if the certificate cannot be walked.
pub fn issuer_organisation_bytes(cert: &[u8]) -> (r: Option<Vec<u8>>)
    ensures
        match r {
            Some(name) => organisation_of_issuer(cert@) == Some(name@),
            None => organisation_of_issuer(cert@) is None,
        },
{
    let (whole, _) = match element(cert, 0) {
        Some(e) => e,
        None => return None,
    };
    let (first, _) = match element(cert, whole) {
        Some(e) => e,
        None => return None,
    };
    let mut serial: usize = first;
    if first < cert.len() && cert[first] == 0xa0 {
        match element(cert, first) {
            Some((_, to)) => {
                serial = to;
            },
            None => return None,
        }
    }
    let (_, algorithm) = match element(cert, serial) {
        Some(e) => e,
        None => return None,
    };
    let (_, issuer) = match element(cert, algorithm) {
        Some(e) => e,
        None => return None,
    };
    assert(issuer_at(cert@) == Some(issuer as int));
    let (from, end) = match element(cert, issuer) {
        Some(e) => e,
        None => return None,
    };
    let mut i: usize = from;
    while i < end
        invariant
            organisation_of_issuer(cert@) == organisation_in(cert@, i as int, end as int),
        decreases end - i,
    {
        match element(cert, i) {
            Some((start, to)) => {
                if to > end {
                    return None;
                }
                let found = set_organisation(cert, start, to);
                if found.is_some() {
                    return found;
                }
                i = to;
            },
            None => return None,
        }
    }
    None
}

} // verus!
