//! An in-memory stream of bytes: writes append to it, reads take from it
//! in order, from where the last read stopped.

use vstd::prelude::*;
use std::collections::VecDeque;

verus! {

/// Why a read failed.
#[derive(Debug, PartialEq, Eq)]
pub enum StreamError {
    /// Every byte written has been read.
    EndOfFile,
}

/// A byte buffer read from the front and written at the back.
pub struct MemStream {
    buf: VecDeque<u8>,
    pos: usize,
}

/// The value of a stream: the bytes written, and how many of them were read.
pub type StreamView = (Seq<u8>, nat);

/// The stream after `w` is written.
pub open spec fn write_spec(s: StreamView, w: Seq<u8>) -> StreamView {
    (s.0 + w, s.1)
}

/// A read into a buffer of `k` bytes: `None` when every byte has been read,
/// else the bytes read (as many as fit, up to the end) and the stream after.
pub open spec fn read_spec(s: StreamView, k: nat) -> Option<(Seq<u8>, StreamView)> {
    if s.1 >= s.0.len() {
        None
    } else {
        let n = if k < s.0.len() - s.1 {
            k
        } else {
            (s.0.len() - s.1) as nat
        };
        Some((s.0.subrange(s.1 as int, (s.1 + n) as int), (s.0, s.1 + n)))
    }
}

impl View for MemStream {
    type V = StreamView;

    closed spec fn view(&self) -> StreamView {
        (self.buf@, self.pos as nat)
    }
}

impl MemStream {
    /// A stream holding `buf`, none of it read yet.
    pub fn new(buf: VecDeque<u8>) -> (m: MemStream)
        ensures
            m@ == (buf@, 0nat),
    {
        MemStream { buf, pos: 0 }
    }

    /// Every byte written has been read; `read` gives no more.
    pub fn eof(&self) -> (b: bool)
        ensures
            b == (self@.1 >= self@.0.len()),
    {
        self.pos >= self.buf.len()
    }

    /// Copies into the front of `buf` the next bytes not read yet, as many
    /// as fit, and returns how many; `EndOfFile` once every byte was read.
    pub fn read(&mut self, buf: &mut [u8]) -> (r: Result<usize, StreamError>)
        ensures
            match read_spec(old(self)@, old(buf)@.len()) {
                None => r == Err::<usize, StreamError>(StreamError::EndOfFile) && final(self)@ == old(self)@
                    && final(buf)@ == old(buf)@,
                Some((bytes, s2)) => r == Ok::<usize, StreamError>(bytes.len() as usize) && final(self)@ == s2
                    && final(buf)@ == bytes + old(buf)@.skip(bytes.len() as int),
            },
    {
        if self.eof() {
            return Err(StreamError::EndOfFile);
        }
        let avail = self.buf.len() - self.pos;
        let write_len = if buf.len() < avail {
            buf.len()
        } else {
            avail
        };
        let ghost start = self.buf@;
        let ghost b0 = buf@;
        let end: usize = self.pos + write_len;
        let mut i: usize = 0;
        while i < write_len
            invariant
                self.buf@ == start,
                self.pos + write_len == end,
                self.pos + write_len <= start.len(),
                write_len <= b0.len(),
                i <= write_len,
                buf@.len() == b0.len(),
                forall|k: int| 0 <= k < i ==> #[trigger] buf@[k] == start[self.pos + k],
                forall|k: int| i <= k < b0.len() ==> #[trigger] buf@[k] == b0[k],
            decreases write_len - i,
        {
            let byte = self.buf[self.pos + i];
            buf[i] = byte;
            i = i + 1;
        }
        self.pos = self.pos + write_len;
        assert(buf@ =~= start.subrange(self.pos - write_len, self.pos as int) + b0.skip(write_len as int));
        Ok(write_len)
    }

    /// Appends `buf` to the bytes written.
    pub fn write(&mut self, buf: &[u8]) -> (r: Result<(), StreamError>)
        ensures
            r is Ok,
            final(self)@ == write_spec(old(self)@, buf@),
    {
        let ghost start = self.buf@;
        let mut i: usize = 0;
        while i < buf.len()
            invariant
                i <= buf@.len(),
                self.buf@ == start + buf@.take(i as int),
                self.pos == old(self).pos,
                start == old(self).buf@,
            decreases buf@.len() - i,
        {
            self.buf.push_back(buf[i]);
            assert(start + buf@.take(i + 1) =~= (start + buf@.take(i as int)).push(buf@[i as int]));
            i = i + 1;
        }
        assert(buf@.take(buf@.len() as int) =~= buf@);
        Ok(())
    }
}

/// What a read gives back is what was written, in order: from a new stream
/// holding `init`, after `w` is written, a read into a buffer of `k` bytes,
/// `k` at least the bytes held, returns all of them and leaves the stream at
/// its end.
pub proof fn law_write_then_read(init: Seq<u8>, w: Seq<u8>, k: nat)
    requires
        init.len() + w.len() > 0,
        k >= init.len() + w.len(),
    ensures
        read_spec(write_spec((init, 0nat), w), k) == Some(
            (init + w, (init + w, (init.len() + w.len()) as nat)),
        ),
        read_spec((init + w, (init.len() + w.len()) as nat), k) is None,
{
    assert((init + w).subrange(0, (init + w).len() as int) =~= init + w);
}

/// Reads take the bytes in order without skipping any: two reads of `k1`
/// and `k2` bytes give what one read of `k1 + k2` bytes gives, where the
/// first does not reach the end.
pub proof fn law_reads_concatenate(s: StreamView, k1: nat, k2: nat)
    requires
        s.1 + k1 < s.0.len(),
    ensures
        read_spec(s, k1) matches Some((b1, s1)) && read_spec(s1, k2) matches Some((b2, s2))
            && read_spec(s, k1 + k2) == Some((b1 + b2, s2)),
{
    let (b1, s1) = read_spec(s, k1)->0;
    let (b2, s2) = read_spec(s1, k2)->0;
    assert(b1 + b2 =~= s.0.subrange(s.1 as int, s2.1 as int));
}

} // verus!
