//! `Canon` for the types of the language and of the standard library.
pub mod collections;
pub use collections::{lemma_encode_all_bytes, models};
pub mod compound;
pub use compound::after_tag;
pub mod ints;
pub use ints::{zigzag_decode, zigzag_encode};
pub mod tuples;

use crate::canon::{Canon, CanonError, Decoded};
use crate::store::{Sink, Source};
use vstd::prelude::*;

verus! {


impl Canon for u8 {
    type Model = u8;

    open spec fn model(&self) -> u8 {
        *self
    }

    open spec fn can_encode(&self) -> bool {
        true
    }

    open spec fn spec_encoding(m: u8) -> Seq<u8> {
        seq![m]
    }

    open spec fn spec_decoding(bytes: Seq<u8>) -> Decoded<u8> {
        if bytes.len() >= 1 {
            Decoded::Value(bytes[0], 1)
        } else {
            Decoded::Short
        }
    }

    fn encode(&self, sink: &mut Sink) {
        let b: [u8; 1] = [*self];
        assert(b@ =~= seq![*self]);
        sink.copy_bytes(&b);
    }

    fn decode(source: &mut Source) -> (r: Result<Self, CanonError>) {
        let bytes = source.read_bytes(1);
        Ok(bytes[0])
    }

    fn encoded_len(&self) -> (n: usize) {
        1
    }

    proof fn lemma_decode_encoding(&self, rest: Seq<u8>) {
        assert((seq![*self] + rest)[0] == *self);
    }
}

} // verus!
