use crate::store::{Sink, Source};
use vstd::prelude::*;

verus! {

/// The possible errors when fetching/decoding values from a store
#[derive(Debug, Clone, Copy, PartialEq, Eq, Structural)]
pub enum CanonError {
    /// The byte sequence is not a valid representation of the type decoded
    InvalidEncoding,
    /// The instance could not be found in storage
    NotFound,
}

/// What decoding a type from a sequence of bytes gives.
pub enum Decoded<M> {
    /// A value, and the number of bytes it was read from
    Value(M, nat),
    /// The bytes are not an encoding of the type
    Invalid,
    /// Decoding would read past the end of the bytes
    Short,
}

impl<M> Decoded<M> {
    /// Decoding succeeds, or fails with an error, without running past the end.
    pub open spec fn in_bounds(self) -> bool {
        !(self is Short)
    }

    /// The same outcome, with `f` applied to a decoded value.
    pub open spec fn map<N>(self, f: spec_fn(M) -> N) -> Decoded<N> {
        match self {
            Decoded::Value(m, n) => Decoded::Value(f(m), n),
            Decoded::Invalid => Decoded::Invalid,
            Decoded::Short => Decoded::Short,
        }
    }
}

/// Trait to read/write values as bytes.
///
/// `Model` is the mathematical value a value of the type stands for;
/// `spec_encoding` is the byte format, stated over the model, and
/// `spec_decoding` says what the decoder makes of any byte sequence.
pub trait Canon: Sized {
    /// The mathematical value that a value of this type represents
    type Model;

    /// The model of `self`
    spec fn model(&self) -> Self::Model;

    /// Whether `self` can be encoded: every encoding it takes (its own, and
    /// those of values it refers to) fits in memory.
    spec fn can_encode(&self) -> bool;

    /// The bytes that encode a value with model `m`
    spec fn spec_encoding(m: Self::Model) -> Seq<u8>;

    /// What decoding from the front of `bytes` gives
    spec fn spec_decoding(bytes: Seq<u8>) -> Decoded<Self::Model>;

    /// Write the value as bytes to a `Sink`
    fn encode(&self, sink: &mut Sink)
        requires
            self.can_encode(),
            old(sink).wf(),
            Self::spec_encoding(self.model()).len() <= old(sink).room(),
        ensures
            final(sink).offset == old(sink).offset + Self::spec_encoding(self.model()).len(),
            final(sink).bytes@ == old(sink).written() + Self::spec_encoding(self.model())
                + old(sink).bytes@.skip(
                old(sink).offset + Self::spec_encoding(self.model()).len(),
            ),
            final(final(sink).bytes)@ == final(old(sink).bytes)@,
    ;

    /// Read the value from bytes in a `Source`
    fn decode(source: &mut Source) -> (r: Result<Self, CanonError>)
        requires
            old(source).wf(),
            Self::spec_decoding(old(source).remaining()).in_bounds(),
        ensures
            final(source).buffer() == old(source).buffer(),
            final(source).wf(),
            match Self::spec_decoding(old(source).remaining()) {
                Decoded::Value(m, n) => {
                    &&& r is Ok
                    &&& r->Ok_0.model() == m
                    &&& n <= old(source).remaining().len()
                    &&& final(source).remaining() == old(source).remaining().skip(n as int)
                },
                Decoded::Invalid => r == Err::<Self, CanonError>(CanonError::InvalidEncoding),
                Decoded::Short => false,
            },
    ;

    /// Returns the number of bytes needed to encode this value
    fn encoded_len(&self) -> (n: usize)
        requires
            self.can_encode(),
            Self::spec_encoding(self.model()).len() <= usize::MAX,
        ensures
            n == Self::spec_encoding(self.model()).len(),
    ;

    /// Decoding the encoding of a value, followed by any bytes, gives the
    /// value back and consumes exactly its encoding. (Every encoding fits in
    /// memory, so its length is at most `usize::MAX`.)
    proof fn lemma_decode_encoding(&self, rest: Seq<u8>)
        requires
            Self::spec_encoding(self.model()).len() <= usize::MAX,
        ensures
            Self::spec_decoding(Self::spec_encoding(self.model()) + rest) == Decoded::Value(
                self.model(),
                Self::spec_encoding(self.model()).len(),
            ),
    ;
}

/// Encodings are canonical: two values with the same encoding have the same
/// model, since decoding that encoding gives back each of them.
pub proof fn lemma_encoding_injective<T: Canon>(a: T, b: T)
    requires
        T::spec_encoding(a.model()).len() <= usize::MAX,
        T::spec_encoding(b.model()).len() <= usize::MAX,
        T::spec_encoding(a.model()) == T::spec_encoding(b.model()),
    ensures
        a.model() == b.model(),
{
    a.lemma_decode_encoding(Seq::empty());
    b.lemma_decode_encoding(Seq::empty());
}

/// Helper trait to encode Canon types into byte vectors.
pub trait EncodeToVec: Canon {
    /// Encode `Self` into a buffer
    fn encode_to_vec(&self) -> (v: Vec<u8>)
        requires
            self.can_encode(),
            Self::spec_encoding(self.model()).len() <= usize::MAX,
        ensures
            v@ == Self::spec_encoding(self.model()),
    ;
}

impl<T: Canon> EncodeToVec for T {
    fn encode_to_vec(&self) -> (v: Vec<u8>) {
        let len = self.encoded_len();
        let mut vec: Vec<u8> = Vec::with_capacity(len);
        let mut i: usize = 0;
        while i < len
            invariant
                i <= len,
                vec@.len() == i,
            decreases len - i,
        {
            vec.push(0u8);
            i = i + 1;
        }
        let mut sink = Sink::new(vec.as_mut_slice());
        self.encode(&mut sink);
        proof {
            assert(sink.bytes@ =~= Self::spec_encoding(self.model()));
        }
        vec
    }
}

} // verus!
