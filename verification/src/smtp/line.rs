//! Cutting the bytes of a connection into lines.

use vstd::prelude::*;

use crate::bytes::{append_bytes, find_byte, index_of_byte, lemma_index_of_byte_is};
use crate::text::{from_utf8_lossy, lossy};

verus! {

/// The most bytes that may wait without a line end among them.
pub const MAX_LINE: usize = 8192;

pub const LF: u8 = 10;

pub const CR: u8 = 13;

/// Whether `b` holds a complete line.
pub open spec fn has_line(b: Seq<u8>) -> bool {
    index_of_byte(b, LF) < b.len()
}

/// The bytes of the first line of `b`, without its CRLF or LF.
pub open spec fn line_bytes(b: Seq<u8>) -> Seq<u8> {
    let raw = b.take(index_of_byte(b, LF));
    if raw.len() > 0 && raw.last() == CR {
        raw.drop_last()
    } else {
        raw
    }
}

/// What follows the first line of `b`.
pub open spec fn after_line(b: Seq<u8>) -> Seq<u8> {
    b.skip(index_of_byte(b, LF) + 1)
}

/// What a [`LineBuffer`] has to offer.
pub enum LineEvent {
    /// A line, without its line end.
    Line(String),
    /// No complete line yet.
    NeedMore,
    /// More than [`MAX_LINE`] bytes and still no line end.
    TooLong,
}

/// The bytes of a connection that have been read and not yet consumed.
pub struct LineBuffer {
    buf: Vec<u8>,
}

impl View for LineBuffer {
    type V = Seq<u8>;

    closed spec fn view(&self) -> Seq<u8> {
        self.buf@
    }
}

impl LineBuffer {
    pub fn new() -> (r: Self)
        ensures
            r@ == Seq::<u8>::empty(),
    {
        LineBuffer { buf: Vec::new() }
    }

    /// Takes in what was read from the connection.
    pub fn extend(&mut self, chunk: &[u8])
        ensures
            final(self)@ == old(self)@ + chunk@,
    {
        append_bytes(&mut self.buf, chunk);
    }

    /// Read one CRLF-terminated line (LF tolerated). Bytes that are not UTF-8
    /// are replaced.
    pub fn read_line(&mut self) -> (r: LineEvent)
        ensures
            has_line(old(self)@) ==> {
                &&& r is Line
                &&& r->Line_0@ == lossy(line_bytes(old(self)@))
                &&& final(self)@ == after_line(old(self)@)
            },
            !has_line(old(self)@) ==> {
                &&& r == (if old(self)@.len() > MAX_LINE {
                    LineEvent::TooLong
                } else {
                    LineEvent::NeedMore
                })
                &&& final(self)@ == old(self)@
            },
    {
        let pos = find_byte(self.buf.as_slice(), 0, LF);
        assert(self.buf@.skip(0) =~= self.buf@);
        if pos < self.buf.len() {
            let rest = self.buf.split_off(pos + 1);
            let mut line: Vec<u8> = Vec::new();
            std::mem::swap(&mut self.buf, &mut line);
            self.buf = rest;
            line.pop();
            assert(line@ =~= old(self)@.take(pos as int));
            if line.len() > 0 && line[line.len() - 1] == CR {
                line.pop();
            }
            LineEvent::Line(from_utf8_lossy(line.as_slice()))
        } else if self.buf.len() > MAX_LINE {
            LineEvent::TooLong
        } else {
            LineEvent::NeedMore
        }
    }

    /// Any buffered plaintext bytes are discarded when the transport is
    /// replaced (RFC 3207).
    pub fn upgrade(&mut self)
        ensures
            final(self)@ == Seq::<u8>::empty(),
    {
        self.buf.clear();
    }
}

/// Lines do not depend on how the connection cuts the bytes up: a line that is
/// complete stays the same line whatever arrives after it.
pub proof fn later_bytes_leave_a_line_alone(b: Seq<u8>, more: Seq<u8>)
    requires
        has_line(b),
    ensures
        has_line(b + more),
        line_bytes(b + more) == line_bytes(b),
        after_line(b + more) == after_line(b) + more,
{
    crate::bytes::lemma_index_of_byte(b, LF);
    let at = index_of_byte(b, LF);
    assert forall|i: int| 0 <= i < at implies (b + more)[i] != LF by {
        assert((b + more)[i] == b[i]);
    }
    lemma_index_of_byte_is(b + more, LF, at);
    assert((b + more).take(at) =~= b.take(at));
    assert((b + more).skip(at + 1) =~= b.skip(at + 1) + more);
}

/// A line that is written with CRLF, and holds no line end itself, is read back.
pub proof fn a_written_line_is_read_back(line: Seq<u8>, rest: Seq<u8>)
    requires
        forall|i: int| 0 <= i < line.len() ==> line[i] != LF,
    ensures
        has_line(line + seq![CR, LF] + rest),
        line_bytes(line + seq![CR, LF] + rest) == line,
        after_line(line + seq![CR, LF] + rest) == rest,
{
    let b = line + seq![CR, LF] + rest;
    let at = line.len() as int + 1;
    assert forall|i: int| 0 <= i < at implies b[i] != LF by {
        if i < line.len() {
            assert(b[i] == line[i]);
        } else {
            assert(b[i] == CR);
        }
    }
    assert(b[at] == LF);
    lemma_index_of_byte_is(b, LF, at);
    assert(b.take(at).drop_last() =~= line);
    assert(b.skip(at + 1) =~= rest);
}

} // verus!
