use vstd::prelude::*;

verus! {

/// Writes bytes into a caller-provided buffer, front to back.
///
/// The fields are public so that contracts can relate the buffer the sink
/// was made from to the bytes the sink wrote into it.
pub struct Sink<'a> {
    /// The buffer being written to
    pub bytes: &'a mut [u8],
    /// How many bytes have been written so far
    pub offset: usize,
}

impl<'a> Sink<'a> {
    /// The bytes written so far.
    pub open spec fn written(&self) -> Seq<u8> {
        self.bytes@.take(self.offset as int)
    }

    /// How many bytes can still be written.
    pub open spec fn room(&self) -> int {
        self.bytes@.len() - self.offset
    }

    /// A sink is well formed when its offset lies within its buffer.
    pub open spec fn wf(&self) -> bool {
        self.offset <= self.bytes@.len()
    }

    /// Creates a new sink writing into `bytes`, from the start.
    pub fn new(bytes: &'a mut [u8]) -> (s: Self)
        ensures
            s.bytes@ == old(bytes)@,
            s.offset == 0,
            final(bytes)@ == final(s.bytes)@,
    {
        Sink { bytes, offset: 0 }
    }

    /// Copies `src` into the sink at the current offset.
    pub fn copy_bytes(&mut self, src: &[u8])
        requires
            old(self).wf(),
            src@.len() <= old(self).room(),
        ensures
            final(self).offset == old(self).offset + src@.len(),
            final(self).bytes@ == old(self).written() + src@ + old(self).bytes@.skip(
                old(self).offset + src@.len(),
            ),
            final(final(self).bytes)@ == final(old(self).bytes)@,
    {
        let mut i: usize = 0;
        while i < src.len()
            invariant
                self.offset == old(self).offset + i,
                i <= src@.len(),
                old(self).offset + src@.len() <= old(self).bytes@.len(),
                self.bytes@.len() == old(self).bytes@.len(),
                final(self.bytes)@ == final(old(self).bytes)@,
                self.bytes@ == old(self).bytes@.take(old(self).offset as int) + src@.take(i as int)
                    + old(self).bytes@.skip(old(self).offset + i),
            decreases src@.len() - i,
        {
            self.bytes[self.offset] = src[i];
            self.offset = self.offset + 1;
            i = i + 1;
            assert(self.bytes@ =~= old(self).bytes@.take(old(self).offset as int) + src@.take(
                i as int,
            ) + old(self).bytes@.skip(old(self).offset + i));
        }
        assert(src@.take(i as int) =~= src@);
    }
}

/// Writing `x` and then `y` at offset `o` of a buffer is writing `x + y` there.
pub proof fn lemma_write_twice(b: Seq<u8>, o: int, x: Seq<u8>, y: Seq<u8>)
    requires
        0 <= o,
        o + x.len() + y.len() <= b.len(),
    ensures
        ({
            let b1 = b.take(o) + x + b.skip(o + x.len());
            b1.take(o + x.len()) + y + b1.skip(o + x.len() + y.len()) == b.take(o) + (x + y)
                + b.skip(o + x.len() + y.len())
        }),
{
    let b1 = b.take(o) + x + b.skip(o + x.len());
    assert(b1.take(o + x.len()) =~= b.take(o) + x);
    assert(b1.skip(o + x.len() + y.len()) =~= b.skip(o + x.len() + y.len()));
    assert(b.take(o) + x + y + b.skip(o + x.len() + y.len()) =~= b.take(o) + (x + y) + b.skip(
        o + x.len() + y.len(),
    ));
}

/// Reads bytes out of a buffer, front to back.
pub struct Source<'a> {
    bytes: &'a [u8],
    offset: usize,
}

impl<'a> Source<'a> {
    /// The whole buffer the source reads from.
    pub closed spec fn buffer(&self) -> Seq<u8> {
        self.bytes@
    }

    /// How many bytes have been read.
    pub closed spec fn position(&self) -> nat {
        self.offset as nat
    }

    /// The bytes not read yet.
    pub open spec fn remaining(&self) -> Seq<u8> {
        self.buffer().skip(self.position() as int)
    }

    /// A source is well formed when its position lies within its buffer.
    pub open spec fn wf(&self) -> bool {
        &&& self.position() <= self.buffer().len()
        &&& self.buffer().len() <= usize::MAX
    }

    /// Creates a new source reading from the start of `bytes`.
    pub fn new(bytes: &'a [u8]) -> (s: Self)
        ensures
            s.buffer() == bytes@,
            s.position() == 0,
            s.wf(),
            s.remaining() == bytes@,
    {
        let _len = bytes.len();
        let s = Source { bytes, offset: 0 };
        assert(s.remaining() =~= bytes@);
        s
    }

    /// Reads the next `n` bytes from the source.
    pub fn read_bytes(&mut self, n: usize) -> (r: &[u8])
        requires
            old(self).wf(),
            n <= old(self).remaining().len(),
        ensures
            r@ == old(self).remaining().take(n as int),
            final(self).buffer() == old(self).buffer(),
            final(self).position() == old(self).position() + n,
            final(self).wf(),
            final(self).remaining() == old(self).remaining().skip(n as int),
    {
        let _len = self.bytes.len();
        let old_offset = self.offset;
        self.offset = self.offset + n;
        let r = &self.bytes[old_offset..old_offset + n];
        assert(r@ =~= old(self).remaining().take(n as int));
        assert(self.remaining() =~= old(self).remaining().skip(n as int));
        r
    }

    /// The bytes not read yet, without consuming them.
    pub fn peek_remaining(&self) -> (r: &[u8])
        requires
            self.wf(),
        ensures
            r@ == self.remaining(),
    {
        let r = &self.bytes[self.offset..self.bytes.len()];
        assert(r@ =~= self.remaining());
        r
    }
}

} // verus!
