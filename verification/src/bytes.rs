//! Searching and cutting byte strings.

use vstd::prelude::*;

verus! {

/// The position of the first `x` in `b`; the length of `b` if there is none.
pub open spec fn index_of_byte(b: Seq<u8>, x: u8) -> int
    decreases b.len(),
{
    if b.len() == 0 || b[0] == x {
        0
    } else {
        1 + index_of_byte(b.skip(1), x)
    }
}

/// `index_of_byte` is a position, and the first one that holds the byte.
pub proof fn lemma_index_of_byte(b: Seq<u8>, x: u8)
    ensures
        0 <= index_of_byte(b, x) <= b.len(),
        index_of_byte(b, x) < b.len() ==> b[index_of_byte(b, x)] == x,
        forall|i: int| 0 <= i < index_of_byte(b, x) ==> b[i] != x,
    decreases b.len(),
{
    if b.len() > 0 && b[0] != x {
        let t = b.skip(1);
        lemma_index_of_byte(t, x);
        assert forall|i: int| 0 <= i < index_of_byte(b, x) implies b[i] != x by {
            if i > 0 {
                assert(t[i - 1] == b[i]);
            }
        }
    }
}

/// The first position that holds the byte is the one that `index_of_byte` gives.
pub proof fn lemma_index_of_byte_is(b: Seq<u8>, x: u8, at: int)
    requires
        0 <= at <= b.len(),
        at < b.len() ==> b[at] == x,
        forall|i: int| 0 <= i < at ==> b[i] != x,
    ensures
        index_of_byte(b, x) == at,
{
    lemma_index_of_byte(b, x);
    let i = index_of_byte(b, x);
    if i < at {
        assert(b[i] != x);
    }
    if at < i {
        assert(b[at] != x);
    }
}

/// The position of the first `x` at or after `from`; the length if there is none.
pub fn find_byte(b: &[u8], from: usize, x: u8) -> (r: usize)
    requires
        from <= b@.len(),
    ensures
        from <= r <= b@.len(),
        r == from + index_of_byte(b@.skip(from as int), x),
{
    let mut i: usize = from;
    while i < b.len() && b[i] != x
        invariant
            from <= i <= b@.len(),
            index_of_byte(b@.skip(from as int), x) == i - from + index_of_byte(
                b@.skip(i as int),
                x,
            ),
        decreases b@.len() - i,
    {
        assert(b@.skip(i as int).skip(1) =~= b@.skip(i + 1));
        i += 1;
    }
    i
}

/// The bytes `from..to`.
pub fn byte_range(b: &[u8], from: usize, to: usize) -> (r: Vec<u8>)
    requires
        from <= to <= b@.len(),
    ensures
        r@ == b@.subrange(from as int, to as int),
{
    let mut out: Vec<u8> = Vec::new();
    let mut i: usize = from;
    while i < to
        invariant
            from <= i <= to <= b@.len(),
            out@ == b@.subrange(from as int, i as int),
        decreases to - i,
    {
        out.push(b[i]);
        assert(b@.subrange(from as int, i + 1) =~= b@.subrange(from as int, i as int).push(
            b@[i as int],
        ));
        i += 1;
    }
    out
}

/// Puts `more` behind `out`.
pub fn append_bytes(out: &mut Vec<u8>, more: &[u8])
    ensures
        final(out)@ == old(out)@ + more@,
{
    let ghost before = out@;
    let mut i: usize = 0;
    while i < more.len()
        invariant
            i <= more@.len(),
            out@ == before + more@.take(i as int),
        decreases more@.len() - i,
    {
        out.push(more[i]);
        assert(more@.take(i + 1) =~= more@.take(i as int).push(more@[i as int]));
        i += 1;
    }
    assert(more@.take(more@.len() as int) =~= more@);
}

} // verus!
