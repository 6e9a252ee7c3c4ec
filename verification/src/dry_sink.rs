//! A sink that computes identifiers without storing anything.
use crate::canon::Canon;
use crate::id::{id_of_bytes, Id};
use vstd::prelude::*;

verus! {

/// A sink that does not write to any underlying storage: it takes the bytes
/// of an encoding and gives the identifier of what it was given.
pub struct DrySink {
    bytes: Vec<u8>,
}

impl DrySink {
    /// The bytes given to the sink so far.
    pub closed spec fn written(&self) -> Seq<u8> {
        self.bytes@
    }

    /// Create a new DrySink
    pub fn new() -> (s: Self)
        ensures
            s.written() == Seq::<u8>::empty(),
    {
        DrySink { bytes: Vec::new() }
    }

    /// Copy bytes from a slice into the `Sink`
    pub fn copy_bytes(&mut self, bytes: &[u8])
        ensures
            final(self).written() == old(self).written() + bytes@,
    {
        let mut i: usize = 0;
        while i < bytes.len()
            invariant
                i <= bytes@.len(),
                self.written() == old(self).written() + bytes@.take(i as int),
            decreases bytes@.len() - i,
        {
            self.bytes.push(bytes[i]);
            i = i + 1;
            assert(self.written() =~= old(self).written() + bytes@.take(i as int));
        }
        assert(bytes@.take(i as int) =~= bytes@);
    }

    /// The identifier of another value, computed the same way: without
    /// storing anything.
    pub fn recur<T: Canon>(&self, t: &T) -> (id: Id)
        requires
            t.can_encode(),
            T::spec_encoding(t.model()).len() <= usize::MAX,
        ensures
            id@ == id_of_bytes(T::spec_encoding(t.model())),
    {
        Id::ident(t)
    }

    /// Consume the sink and return the identifier of the bytes written
    pub fn fin(self) -> (id: Id)
        ensures
            id@ == id_of_bytes(self.written()),
    {
        Id::of_encoding(self.bytes.as_slice())
    }
}

} // verus!
