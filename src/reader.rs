use vstd::prelude::*;
use vstd::slice::slice_subrange;

use crate::error::DnsError;

verus! {

/// A cursor over the first `len` bytes of a buffer (the usable length, which
/// may be shorter than the buffer, e.g. the part of a receive buffer that a
/// datagram filled).
pub struct Reader<'a> {
    buf: &'a [u8],
    pos: usize,
    len: usize,
}

impl<'a> Reader<'a> {
    /// The bytes that reads may reach.
    pub closed spec fn data(&self) -> Seq<u8> {
        self.buf@.subrange(0, self.len as int)
    }

    /// The cursor, an absolute offset into `data()`.
    pub closed spec fn pos(&self) -> int {
        self.pos as int
    }

    pub closed spec fn wf(&self) -> bool {
        self.len <= self.buf@.len() && self.pos <= self.len
    }

    /// A reader at offset 0 over the first `len` bytes of `buf` (all of `buf`
    /// where `len` exceeds it).
    pub fn new(buf: &'a [u8], len: usize) -> (r: Reader<'a>)
        ensures
            r.wf(),
            r.pos() == 0,
            r.data() == buf@.subrange(0, if len <= buf@.len() { len as int } else { buf@.len() as int }),
    {
        let limit = if len <= buf.len() { len } else { buf.len() };
        Reader { buf, pos: 0, len: limit }
    }

    /// The next `n` bytes, moving the cursor past them. Fails where the
    /// cursor already stands at the end, or where they would run past it.
    pub fn read(&mut self, n: usize) -> (r: Result<&'a [u8], DnsError>)
        requires
            old(self).wf(),
        ensures
            final(self).wf(),
            final(self).data() == old(self).data(),
            r is Ok <==> can_read(old(self).data(), old(self).pos(), n as int),
            r is Ok ==> r->Ok_0@ == old(self).data().subrange(old(self).pos(), old(self).pos() + n)
                && final(self).pos() == old(self).pos() + n,
            r is Err ==> r == Err::<&'a [u8], DnsError>(DnsError::CorruptMessage)
                && final(self).pos() == old(self).pos(),
    {
        if self.pos < self.len && n <= self.len - self.pos {
            let r = slice_subrange(self.buf, self.pos, self.pos + n);
            self.pos = self.pos + n;
            Ok(r)
        } else {
            Err(DnsError::CorruptMessage)
        }
    }

    /// Moves the cursor to `pos`; fails where that lies past the usable length.
    pub fn seek(&mut self, pos: usize) -> (r: Result<(), DnsError>)
        requires
            old(self).wf(),
        ensures
            final(self).wf(),
            final(self).data() == old(self).data(),
            r is Ok <==> pos <= old(self).data().len(),
            r is Ok ==> final(self).pos() == pos,
            r is Err ==> r == Err::<(), DnsError>(DnsError::CorruptMessage)
                && final(self).pos() == old(self).pos(),
    {
        if pos <= self.len {
            self.pos = pos;
            Ok(())
        } else {
            Err(DnsError::CorruptMessage)
        }
    }

    /// The cursor.
    pub fn tell(&self) -> (r: usize)
        ensures
            r == self.pos(),
    {
        self.pos
    }
}

/// Whether `n` bytes can be read at `pos`: the cursor stands before the end
/// and the bytes lie within it.
pub open spec fn can_read(data: Seq<u8>, pos: int, n: int) -> bool {
    0 <= pos < data.len() && pos + n <= data.len()
}

} // verus!
