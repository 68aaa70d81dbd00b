//! Byte cursors: a reader that consumes bytes from the front of a buffer,
//! and a writer that appends or prepends byte ranges.
use vstd::prelude::*;

verus! {

/// Big-endian value of a byte sequence, most significant byte first.
pub open spec fn be_value(s: Seq<u8>) -> nat
    decreases s.len(),
{
    if s.len() == 0 {
        0
    } else {
        be_value(s.drop_last()) * 256 + s.last() as nat
    }
}

/// A read went past the end of the available bytes.
#[derive(Debug, Clone, Copy, PartialEq, Eq)]
pub struct BytesReadError;

/// Sequential reader over an owned byte buffer.
pub struct BytesReader {
    buffer: Vec<u8>,
    pos: usize,
}

impl View for BytesReader {
    type V = Seq<u8>;

    /// The bytes not yet consumed.
    closed spec fn view(&self) -> Seq<u8> {
        self.buffer@.subrange(self.pos as int, self.buffer@.len() as int)
    }
}

impl BytesReader {
    pub closed spec fn wf(&self) -> bool {
        self.pos <= self.buffer@.len()
    }

    pub fn new(data: Vec<u8>) -> (r: Self)
        ensures
            r.wf(),
            r@ == data@,
    {
        let r = BytesReader { buffer: data, pos: 0 };
        assert(r@ =~= data@);
        r
    }

    /// Appends bytes at the end of the unread part.
    pub fn extend_from_slice(&mut self, data: &[u8])
        requires
            old(self).wf(),
        ensures
            final(self).wf(),
            final(self)@ == old(self)@ + data@,
    {
        let mut i: usize = 0;
        while i < data.len()
            invariant
                self.wf(),
                self.pos == old(self).pos,
                old(self).wf(),
                i <= data@.len(),
                self.buffer@ == old(self).buffer@ + data@.subrange(0, i as int),
            decreases data@.len() - i,
        {
            self.buffer.push(data[i]);
            i = i + 1;
            assert(self.buffer@ =~= old(self).buffer@ + data@.subrange(0, i as int));
        }
        assert(data@.subrange(0, data@.len() as int) =~= data@);
        assert(self@ =~= old(self)@ + data@);
    }

    pub fn len(&self) -> (r: usize)
        requires
            self.wf(),
        ensures
            r == self@.len(),
    {
        self.buffer.len() - self.pos
    }

    pub fn is_empty(&self) -> (r: bool)
        requires
            self.wf(),
        ensures
            r == (self@.len() == 0),
    {
        self.pos == self.buffer.len()
    }

    /// Consumes one byte.
    pub fn read_u8(&mut self) -> (r: Result<u8, BytesReadError>)
        requires
            old(self).wf(),
        ensures
            final(self).wf(),
            old(self)@.len() == 0 <==> r is Err,
            r is Ok ==> r->Ok_0 == old(self)@[0] && final(self)@ == old(self)@.drop_first(),
            r is Err ==> final(self)@ == old(self)@,
    {
        if self.pos < self.buffer.len() {
            let b = self.buffer[self.pos];
            self.pos = self.pos + 1;
            assert(self@ =~= old(self)@.drop_first());
            Ok(b)
        } else {
            Err(BytesReadError)
        }
    }

    /// Returns the next byte without consuming it.
    pub fn advance_u8(&self) -> (r: Result<u8, BytesReadError>)
        requires
            self.wf(),
        ensures
            self@.len() == 0 <==> r is Err,
            r is Ok ==> r->Ok_0 == self@[0],
    {
        if self.pos < self.buffer.len() {
            Ok(self.buffer[self.pos])
        } else {
            Err(BytesReadError)
        }
    }

    /// Consumes a big-endian 16-bit integer.
    pub fn read_u16_be(&mut self) -> (r: Result<u16, BytesReadError>)
        requires
            old(self).wf(),
        ensures
            final(self).wf(),
            old(self)@.len() < 2 <==> r is Err,
            r is Ok ==> r->Ok_0 as nat == be_value(old(self)@.take(2)) && final(self)@
                == old(self)@.skip(2),
    {
        if self.buffer.len() - self.pos < 2 {
            return Err(BytesReadError);
        }
        let hi = self.buffer[self.pos];
        let lo = self.buffer[self.pos + 1];
        self.pos = self.pos + 2;
        let ghost s = old(self)@.take(2);
        assert(s.drop_last().drop_last() =~= Seq::<u8>::empty());
        assert(be_value(s) == hi as nat * 256 + lo as nat) by {
            reveal_with_fuel(be_value, 3);
        }
        assert(self@ =~= old(self)@.skip(2));
        Ok(hi as u16 * 256 + lo as u16)
    }

    /// Consumes exactly `n` bytes.
    pub fn read_bytes(&mut self, n: usize) -> (r: Result<Vec<u8>, BytesReadError>)
        requires
            old(self).wf(),
        ensures
            final(self).wf(),
            old(self)@.len() < n <==> r is Err,
            r is Ok ==> r->Ok_0@ == old(self)@.take(n as int) && final(self)@ == old(self)@.skip(
                n as int,
            ),
    {
        if self.buffer.len() - self.pos < n {
            return Err(BytesReadError);
        }
        let mut out: Vec<u8> = Vec::new();
        let start = self.pos;
        let total = self.buffer.len();
        let mut i: usize = 0;
        while i < n
            invariant
                start == old(self).pos,
                self.buffer == old(self).buffer,
                old(self).wf(),
                start + n <= total,
                total == self.buffer@.len(),
                i <= n,
                out@ == self.buffer@.subrange(start as int, start + i),
            decreases n - i,
        {
            out.push(self.buffer[start + i]);
            i = i + 1;
            assert(out@ =~= self.buffer@.subrange(start as int, start + i));
        }
        self.pos = start + n;
        assert(out@ =~= old(self)@.take(n as int));
        assert(self@ =~= old(self)@.skip(n as int));
        Ok(out)
    }

    /// Discards and returns every byte not yet consumed.
    pub fn extract_remaining_bytes(&mut self) -> (r: Vec<u8>)
        requires
            old(self).wf(),
        ensures
            final(self).wf(),
            r@ == old(self)@,
            final(self)@.len() == 0,
    {
        let n = self.buffer.len() - self.pos;
        let r = self.read_bytes(n);
        match r {
            Ok(v) => {
                assert(old(self)@.take(n as int) =~= old(self)@);
                v
            },
            Err(_) => Vec::new(),
        }
    }
}

/// Growable output buffer.
pub struct BytesWriter {
    buffer: Vec<u8>,
}

impl View for BytesWriter {
    type V = Seq<u8>;

    closed spec fn view(&self) -> Seq<u8> {
        self.buffer@
    }
}

impl BytesWriter {
    pub fn new() -> (r: Self)
        ensures
            r@.len() == 0,
    {
        BytesWriter { buffer: Vec::new() }
    }

    /// Appends `data`.
    pub fn write(&mut self, data: &[u8])
        ensures
            final(self)@ == old(self)@ + data@,
    {
        let mut i: usize = 0;
        while i < data.len()
            invariant
                i <= data@.len(),
                self@ == old(self)@ + data@.subrange(0, i as int),
            decreases data@.len() - i,
        {
            self.buffer.push(data[i]);
            i = i + 1;
            assert(self@ =~= old(self)@ + data@.subrange(0, i as int));
        }
        assert(data@.subrange(0, data@.len() as int) =~= data@);
    }

    pub fn write_u8(&mut self, b: u8)
        ensures
            final(self)@ == old(self)@.push(b),
    {
        self.buffer.push(b);
    }

    /// Appends a big-endian 16-bit integer.
    pub fn write_u16_be(&mut self, v: u16)
        ensures
            final(self)@ == old(self)@ + seq![(v / 256) as u8, (v % 256) as u8],
    {
        self.buffer.push((v / 256) as u8);
        self.buffer.push((v % 256) as u8);
        assert(self@ =~= old(self)@ + seq![(v / 256) as u8, (v % 256) as u8]);
    }

    /// Inserts `data` in front of everything written so far.
    pub fn prepend(&mut self, data: &[u8])
        ensures
            final(self)@ == data@ + old(self)@,
    {
        let mut out: Vec<u8> = Vec::new();
        let mut i: usize = 0;
        while i < data.len()
            invariant
                i <= data@.len(),
                out@ == data@.subrange(0, i as int),
            decreases data@.len() - i,
        {
            out.push(data[i]);
            i = i + 1;
            assert(out@ =~= data@.subrange(0, i as int));
        }
        assert(out@ =~= data@);
        out.append(&mut self.buffer);
        self.buffer = out;
    }

    /// A copy of everything written so far.
    pub fn get_current_bytes(&self) -> (r: Vec<u8>)
        ensures
            r@ == self@,
    {
        let r = self.buffer.clone();
        assert(r@ =~= self@);
        r
    }

    pub fn clear(&mut self)
        ensures
            final(self)@.len() == 0,
    {
        self.buffer.clear();
    }

    pub fn len(&self) -> (r: usize)
        ensures
            r == self@.len(),
    {
        self.buffer.len()
    }
}

} // verus!
