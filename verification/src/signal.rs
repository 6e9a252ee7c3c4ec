//! Signals that a module sends to its host.
use crate::canon::{Canon, CanonError, Decoded};
use crate::implementations::after_tag;
use crate::store::{lemma_write_twice, Sink, Source};
use vstd::prelude::*;

verus! {

/// A panic signal that can be sent from a module.
#[derive(Clone, Debug)]
pub enum Signal {
    /// Signal originated as a panic
    Panic(String),
    /// Signal originated as an error
    Error(String),
}

impl Signal {
    /// Create a new signal
    pub fn panic(s: &str) -> (r: Self)
        ensures
            r matches Signal::Panic(m) && m@ == s@,
    {
        Signal::Panic(s.to_owned())
    }
}

impl Canon for Signal {
    /// The variant (0 for a panic, 1 for an error) and the message.
    type Model = (u8, Seq<char>);

    open spec fn model(&self) -> (u8, Seq<char>) {
        match self {
            Signal::Panic(s) => (0u8, s@),
            Signal::Error(s) => (1u8, s@),
        }
    }

    open spec fn can_encode(&self) -> bool {
        true
    }

    /// The variant as a byte, then the message.
    open spec fn spec_encoding(m: (u8, Seq<char>)) -> Seq<u8> {
        seq![m.0] + <String as Canon>::spec_encoding(m.1)
    }

    open spec fn spec_decoding(bytes: Seq<u8>) -> Decoded<(u8, Seq<char>)> {
        if bytes.len() == 0 {
            Decoded::Short
        } else if bytes[0] == 0 {
            after_tag::<String, (u8, Seq<char>)>(bytes, |s: Seq<char>| (0u8, s))
        } else if bytes[0] == 1 {
            after_tag::<String, (u8, Seq<char>)>(bytes, |s: Seq<char>| (1u8, s))
        } else {
            Decoded::Invalid
        }
    }

    fn encode(&self, sink: &mut Sink) {
        let ghost b = sink.bytes@;
        let ghost o = sink.offset as int;
        match self {
            Signal::Panic(s) => {
                0u8.encode(sink);
                s.encode(sink);
                proof {
                    lemma_write_twice(b, o, seq![0u8], <String as Canon>::spec_encoding(s@));
                }
            },
            Signal::Error(s) => {
                1u8.encode(sink);
                s.encode(sink);
                proof {
                    lemma_write_twice(b, o, seq![1u8], <String as Canon>::spec_encoding(s@));
                }
            },
        }
    }

    fn decode(source: &mut Source) -> (r: Result<Self, CanonError>) {
        let tag = match u8::decode(source) {
            Ok(t) => t,
            Err(e) => return Err(e),
        };
        if tag == 0 {
            match String::decode(source) {
                Ok(s) => Ok(Signal::Panic(s)),
                Err(e) => Err(e),
            }
        } else if tag == 1 {
            match String::decode(source) {
                Ok(s) => Ok(Signal::Error(s)),
                Err(e) => Err(e),
            }
        } else {
            Err(CanonError::InvalidEncoding)
        }
    }

    fn encoded_len(&self) -> (n: usize) {
        match self {
            Signal::Panic(s) => 1 + s.encoded_len(),
            Signal::Error(s) => 1 + s.encoded_len(),
        }
    }

    proof fn lemma_decode_encoding(&self, rest: Seq<u8>) {
        let m = self.model();
        let e = <String as Canon>::spec_encoding(m.1);
        let all = seq![m.0] + e + rest;
        assert(all[0] == m.0);
        assert(all.skip(1) =~= e + rest);
        match self {
            Signal::Panic(s) => s.lemma_decode_encoding(rest),
            Signal::Error(s) => s.lemma_decode_encoding(rest),
        }
        assert(all =~= Self::spec_encoding(m) + rest);
    }
}

} // verus!
