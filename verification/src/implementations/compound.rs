//! Tagged and composite values: `bool`, the error type, `()`, `PhantomData`,
//! `Option`, `Result`, tuples and shared pointers.
use crate::canon::{Canon, CanonError, Decoded};
use crate::store::{lemma_write_twice, Sink, Source};
use core::marker::PhantomData;
use std::rc::Rc;
use std::sync::Arc;
use vstd::prelude::*;

verus! {

/// The outcome of decoding a value of `T` after a one byte tag.
pub open spec fn after_tag<T: Canon, M>(bytes: Seq<u8>, f: spec_fn(T::Model) -> M) -> Decoded<M> {
    match T::spec_decoding(bytes.skip(1)) {
        Decoded::Value(m, n) => Decoded::Value(f(m), n + 1),
        Decoded::Invalid => Decoded::Invalid,
        Decoded::Short => Decoded::Short,
    }
}

/// Writes a one byte tag.
fn write_tag(tag: u8, sink: &mut Sink)
    requires
        old(sink).wf(),
        1 <= old(sink).room(),
    ensures
        final(sink).offset == old(sink).offset + 1,
        final(sink).bytes@ == old(sink).written() + seq![tag] + old(sink).bytes@.skip(
            old(sink).offset + 1,
        ),
        final(final(sink).bytes)@ == final(old(sink).bytes)@,
{
    let b: [u8; 1] = [tag];
    assert(b@ =~= seq![tag]);
    sink.copy_bytes(&b);
}

/// Reads a one byte tag.
fn read_tag(source: &mut Source) -> (tag: u8)
    requires
        old(source).wf(),
        old(source).remaining().len() >= 1,
    ensures
        tag == old(source).remaining()[0],
        final(source).buffer() == old(source).buffer(),
        final(source).wf(),
        final(source).remaining() == old(source).remaining().skip(1),
{
    let b = source.read_bytes(1);
    b[0]
}

impl Canon for bool {
    type Model = bool;

    open spec fn model(&self) -> bool {
        *self
    }

    open spec fn can_encode(&self) -> bool {
        true
    }

    /// One byte: 1 for true, 0 for false.
    open spec fn spec_encoding(m: bool) -> Seq<u8> {
        if m {
            seq![1u8]
        } else {
            seq![0u8]
        }
    }

    open spec fn spec_decoding(bytes: Seq<u8>) -> Decoded<bool> {
        if bytes.len() == 0 {
            Decoded::Short
        } else if bytes[0] == 0 {
            Decoded::Value(false, 1)
        } else if bytes[0] == 1 {
            Decoded::Value(true, 1)
        } else {
            Decoded::Invalid
        }
    }

    fn encode(&self, sink: &mut Sink) {
        if *self {
            write_tag(1, sink)
        } else {
            write_tag(0, sink)
        }
    }

    fn decode(source: &mut Source) -> (r: Result<Self, CanonError>) {
        let tag = read_tag(source);
        if tag == 0 {
            Ok(false)
        } else if tag == 1 {
            Ok(true)
        } else {
            Err(CanonError::InvalidEncoding)
        }
    }

    fn encoded_len(&self) -> (n: usize) {
        1
    }

    proof fn lemma_decode_encoding(&self, rest: Seq<u8>) {
        let e = Self::spec_encoding(*self);
        assert((e + rest)[0] == e[0]);
    }
}

impl Canon for CanonError {
    type Model = CanonError;

    open spec fn model(&self) -> CanonError {
        *self
    }

    open spec fn can_encode(&self) -> bool {
        true
    }

    /// One byte: 0 for an invalid encoding, 1 for a missing value.
    open spec fn spec_encoding(m: CanonError) -> Seq<u8> {
        match m {
            CanonError::InvalidEncoding => seq![0u8],
            CanonError::NotFound => seq![1u8],
        }
    }

    open spec fn spec_decoding(bytes: Seq<u8>) -> Decoded<CanonError> {
        if bytes.len() == 0 {
            Decoded::Short
        } else if bytes[0] == 0 {
            Decoded::Value(CanonError::InvalidEncoding, 1)
        } else if bytes[0] == 1 {
            Decoded::Value(CanonError::NotFound, 1)
        } else {
            Decoded::Invalid
        }
    }

    fn encode(&self, sink: &mut Sink) {
        let byte: u8 = match self {
            CanonError::InvalidEncoding => 0,
            CanonError::NotFound => 1,
        };
        write_tag(byte, sink)
    }

    fn decode(source: &mut Source) -> (r: Result<Self, CanonError>) {
        match u8::decode(source) {
            Ok(0) => Ok(CanonError::InvalidEncoding),
            Ok(1) => Ok(CanonError::NotFound),
            _ => Err(CanonError::InvalidEncoding),
        }
    }

    fn encoded_len(&self) -> (n: usize) {
        1
    }

    proof fn lemma_decode_encoding(&self, rest: Seq<u8>) {
        let e = Self::spec_encoding(*self);
        assert((e + rest)[0] == e[0]);
    }
}

impl Canon for () {
    type Model = ();

    open spec fn model(&self) -> () {
        ()
    }

    open spec fn can_encode(&self) -> bool {
        true
    }

    /// No bytes at all.
    open spec fn spec_encoding(m: ()) -> Seq<u8> {
        Seq::empty()
    }

    open spec fn spec_decoding(bytes: Seq<u8>) -> Decoded<()> {
        Decoded::Value((), 0)
    }

    fn encode(&self, sink: &mut Sink) {
        assert(sink.bytes@ =~= sink.written() + Seq::<u8>::empty() + sink.bytes@.skip(
            sink.offset as int,
        ));
    }

    fn decode(source: &mut Source) -> (r: Result<Self, CanonError>) {
        assert(source.remaining().skip(0) =~= source.remaining());
        Ok(())
    }

    fn encoded_len(&self) -> (n: usize) {
        0
    }

    proof fn lemma_decode_encoding(&self, rest: Seq<u8>) {
    }
}

impl<T> Canon for PhantomData<T> {
    type Model = ();

    open spec fn model(&self) -> () {
        ()
    }

    open spec fn can_encode(&self) -> bool {
        true
    }

    /// No bytes at all.
    open spec fn spec_encoding(m: ()) -> Seq<u8> {
        Seq::empty()
    }

    open spec fn spec_decoding(bytes: Seq<u8>) -> Decoded<()> {
        Decoded::Value((), 0)
    }

    fn encode(&self, sink: &mut Sink) {
        assert(sink.bytes@ =~= sink.written() + Seq::<u8>::empty() + sink.bytes@.skip(
            sink.offset as int,
        ));
    }

    fn decode(source: &mut Source) -> (r: Result<Self, CanonError>) {
        assert(source.remaining().skip(0) =~= source.remaining());
        Ok(PhantomData)
    }

    fn encoded_len(&self) -> (n: usize) {
        0
    }

    proof fn lemma_decode_encoding(&self, rest: Seq<u8>) {
    }
}

impl<T: Canon> Canon for Option<T> {
    type Model = Option<T::Model>;

    open spec fn model(&self) -> Option<T::Model> {
        match self {
            Some(t) => Some(t.model()),
            None => None,
        }
    }

    open spec fn can_encode(&self) -> bool {
        match self {
            Some(t) => t.can_encode(),
            None => true,
        }
    }

    /// A tag byte, 0 for `None` and 1 for `Some`, then the value if any.
    open spec fn spec_encoding(m: Option<T::Model>) -> Seq<u8> {
        match m {
            None => seq![0u8],
            Some(t) => seq![1u8] + T::spec_encoding(t),
        }
    }

    open spec fn spec_decoding(bytes: Seq<u8>) -> Decoded<Option<T::Model>> {
        if bytes.len() == 0 {
            Decoded::Short
        } else if bytes[0] == 0 {
            Decoded::Value(None, 1)
        } else if bytes[0] == 1 {
            after_tag::<T, Option<T::Model>>(bytes, |m: T::Model| Some(m))
        } else {
            Decoded::Invalid
        }
    }

    fn encode(&self, sink: &mut Sink) {
        match self {
            None => write_tag(0, sink),
            Some(t) => {
                let ghost b = sink.bytes@;
                let ghost o = sink.offset as int;
                write_tag(1, sink);
                t.encode(sink);
                proof {
                    lemma_write_twice(b, o, seq![1u8], T::spec_encoding(t.model()));
                }
            },
        }
    }

    fn decode(source: &mut Source) -> (r: Result<Self, CanonError>) {
        let tag = read_tag(source);
        if tag == 0 {
            Ok(None)
        } else if tag == 1 {
            match T::decode(source) {
                Ok(t) => Ok(Some(t)),
                Err(e) => Err(e),
            }
        } else {
            Err(CanonError::InvalidEncoding)
        }
    }

    fn encoded_len(&self) -> (n: usize) {
        match self {
            Some(t) => 1 + t.encoded_len(),
            None => 1,
        }
    }

    proof fn lemma_decode_encoding(&self, rest: Seq<u8>) {
        match self {
            None => {
                assert((seq![0u8] + rest)[0] == 0);
            },
            Some(t) => {
                let e = T::spec_encoding(t.model());
                let all = seq![1u8] + e + rest;
                assert(all[0] == 1);
                assert(all.skip(1) =~= e + rest);
                t.lemma_decode_encoding(rest);
                assert(seq![1u8] + e + rest =~= Self::spec_encoding(self.model()) + rest);
            },
        }
    }
}

impl<T: Canon, E: Canon> Canon for Result<T, E> {
    type Model = Result<T::Model, E::Model>;

    open spec fn model(&self) -> Result<T::Model, E::Model> {
        match self {
            Ok(t) => Ok(t.model()),
            Err(e) => Err(e.model()),
        }
    }

    open spec fn can_encode(&self) -> bool {
        match self {
            Ok(t) => t.can_encode(),
            Err(e) => e.can_encode(),
        }
    }

    /// A tag byte, 0 for `Ok` and 1 for `Err`, then the value.
    open spec fn spec_encoding(m: Result<T::Model, E::Model>) -> Seq<u8> {
        match m {
            Ok(t) => seq![0u8] + T::spec_encoding(t),
            Err(e) => seq![1u8] + E::spec_encoding(e),
        }
    }

    open spec fn spec_decoding(bytes: Seq<u8>) -> Decoded<Result<T::Model, E::Model>> {
        if bytes.len() == 0 {
            Decoded::Short
        } else if bytes[0] == 0 {
            after_tag::<T, Result<T::Model, E::Model>>(bytes, |m: T::Model| Ok(m))
        } else if bytes[0] == 1 {
            after_tag::<E, Result<T::Model, E::Model>>(bytes, |m: E::Model| Err(m))
        } else {
            Decoded::Invalid
        }
    }

    fn encode(&self, sink: &mut Sink) {
        let ghost b = sink.bytes@;
        let ghost o = sink.offset as int;
        match self {
            Ok(t) => {
                write_tag(0, sink);
                t.encode(sink);
                proof {
                    lemma_write_twice(b, o, seq![0u8], T::spec_encoding(t.model()));
                }
            },
            Err(e) => {
                write_tag(1, sink);
                e.encode(sink);
                proof {
                    lemma_write_twice(b, o, seq![1u8], E::spec_encoding(e.model()));
                }
            },
        }
    }

    fn decode(source: &mut Source) -> (r: Result<Self, CanonError>) {
        let tag = read_tag(source);
        if tag == 0 {
            match T::decode(source) {
                Ok(t) => Ok(Ok(t)),
                Err(e) => Err(e),
            }
        } else if tag == 1 {
            match E::decode(source) {
                Ok(e) => Ok(Err(e)),
                Err(e) => Err(e),
            }
        } else {
            Err(CanonError::InvalidEncoding)
        }
    }

    fn encoded_len(&self) -> (n: usize) {
        match self {
            Ok(t) => 1 + t.encoded_len(),
            Err(e) => 1 + e.encoded_len(),
        }
    }

    proof fn lemma_decode_encoding(&self, rest: Seq<u8>) {
        match self {
            Ok(t) => {
                let e = T::spec_encoding(t.model());
                let all = seq![0u8] + e + rest;
                assert(all[0] == 0);
                assert(all.skip(1) =~= e + rest);
                t.lemma_decode_encoding(rest);
                assert(all =~= Self::spec_encoding(self.model()) + rest);
            },
            Err(x) => {
                let e = E::spec_encoding(x.model());
                let all = seq![1u8] + e + rest;
                assert(all[0] == 1);
                assert(all.skip(1) =~= e + rest);
                x.lemma_decode_encoding(rest);
                assert(all =~= Self::spec_encoding(self.model()) + rest);
            },
        }
    }
}

impl<T: Canon> Canon for Rc<T> {
    type Model = T::Model;

    open spec fn model(&self) -> T::Model {
        (**self).model()
    }

    open spec fn can_encode(&self) -> bool {
        (**self).can_encode()
    }

    /// The encoding of the value pointed to.
    open spec fn spec_encoding(m: T::Model) -> Seq<u8> {
        T::spec_encoding(m)
    }

    open spec fn spec_decoding(bytes: Seq<u8>) -> Decoded<T::Model> {
        T::spec_decoding(bytes)
    }

    fn encode(&self, sink: &mut Sink) {
        (**self).encode(sink)
    }

    fn decode(source: &mut Source) -> (r: Result<Self, CanonError>) {
        match T::decode(source) {
            Ok(t) => Ok(Rc::new(t)),
            Err(e) => Err(e),
        }
    }

    fn encoded_len(&self) -> (n: usize) {
        (**self).encoded_len()
    }

    proof fn lemma_decode_encoding(&self, rest: Seq<u8>) {
        (**self).lemma_decode_encoding(rest)
    }
}

impl<T: Canon> Canon for Arc<T> {
    type Model = T::Model;

    open spec fn model(&self) -> T::Model {
        (**self).model()
    }

    open spec fn can_encode(&self) -> bool {
        (**self).can_encode()
    }

    /// The encoding of the value pointed to.
    open spec fn spec_encoding(m: T::Model) -> Seq<u8> {
        T::spec_encoding(m)
    }

    open spec fn spec_decoding(bytes: Seq<u8>) -> Decoded<T::Model> {
        T::spec_decoding(bytes)
    }

    fn encode(&self, sink: &mut Sink) {
        (**self).encode(sink)
    }

    fn decode(source: &mut Source) -> (r: Result<Self, CanonError>) {
        match T::decode(source) {
            Ok(t) => Ok(Arc::new(t)),
            Err(e) => Err(e),
        }
    }

    fn encoded_len(&self) -> (n: usize) {
        (**self).encoded_len()
    }

    proof fn lemma_decode_encoding(&self, rest: Seq<u8>) {
        (**self).lemma_decode_encoding(rest)
    }
}

} // verus!
