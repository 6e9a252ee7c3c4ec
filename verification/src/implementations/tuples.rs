//! Tuples: the encodings of the elements, one after the other.
use crate::canon::{Canon, CanonError, Decoded};
use crate::store::{lemma_write_twice, Sink, Source};
use vstd::prelude::*;

verus! {

/// Decoding a value of `A` and then one of `B` from what follows it.
pub open spec fn decode_pair<A: Canon, B: Canon>(bytes: Seq<u8>) -> Decoded<(A::Model, B::Model)> {
    match A::spec_decoding(bytes) {
        Decoded::Value(a, n) => match B::spec_decoding(bytes.skip(n as int)) {
            Decoded::Value(b, m) => Decoded::Value((a, b), n + m),
            Decoded::Invalid => Decoded::Invalid,
            Decoded::Short => Decoded::Short,
        },
        Decoded::Invalid => Decoded::Invalid,
        Decoded::Short => Decoded::Short,
    }
}

/// Decoding two encodings that follow each other gives both values.
pub proof fn lemma_decode_pair<A: Canon, B: Canon>(a: A, b: B, rest: Seq<u8>)
    requires
        A::spec_encoding(a.model()).len() + B::spec_encoding(b.model()).len() <= usize::MAX,
    ensures
        decode_pair::<A, B>(A::spec_encoding(a.model()) + B::spec_encoding(b.model()) + rest)
            == Decoded::Value(
            (a.model(), b.model()),
            A::spec_encoding(a.model()).len() + B::spec_encoding(b.model()).len(),
        ),
{
    let ea = A::spec_encoding(a.model());
    let eb = B::spec_encoding(b.model());
    let all = ea + eb + rest;
    assert(all =~= ea + (eb + rest));
    a.lemma_decode_encoding(eb + rest);
    assert(all.skip(ea.len() as int) =~= eb + rest);
    b.lemma_decode_encoding(rest);
}

/// Encodes `x` after the bytes `acc` already written at offset `o` of `b`.
fn encode_next<X: Canon>(x: &X, sink: &mut Sink, Ghost(b): Ghost<Seq<u8>>, Ghost(o): Ghost<int>, Ghost(acc): Ghost<Seq<u8>>)
    requires
        x.can_encode(),
        0 <= o,
        old(sink).bytes@ == b.take(o) + acc + b.skip(o + acc.len()),
        old(sink).offset == o + acc.len(),
        o + acc.len() + X::spec_encoding(x.model()).len() <= b.len(),
    ensures
        final(sink).bytes@ == b.take(o) + (acc + X::spec_encoding(x.model())) + b.skip(
            o + acc.len() + X::spec_encoding(x.model()).len(),
        ),
        final(sink).offset == o + acc.len() + X::spec_encoding(x.model()).len(),
        final(final(sink).bytes)@ == final(old(sink).bytes)@,
{
    let ghost before = sink.bytes@;
    let ghost e = X::spec_encoding(x.model());
    x.encode(sink);
    proof {
        lemma_write_twice(b, o, acc, e);
        assert(before.take(o + acc.len()) =~= b.take(o) + acc);
        assert(before.skip(o + acc.len() + e.len()) =~= b.skip(o + acc.len() + e.len()));
    }
}

impl<A: Canon, B: Canon> Canon for (A, B) {
    type Model = (A::Model, B::Model);

    open spec fn model(&self) -> (A::Model, B::Model) {
        (self.0.model(), self.1.model())
    }

    open spec fn can_encode(&self) -> bool {
        self.0.can_encode() && self.1.can_encode()
    }

    open spec fn spec_encoding(m: (A::Model, B::Model)) -> Seq<u8> {
        A::spec_encoding(m.0) + B::spec_encoding(m.1)
    }

    open spec fn spec_decoding(bytes: Seq<u8>) -> Decoded<(A::Model, B::Model)> {
        decode_pair::<A, B>(bytes)
    }

    fn encode(&self, sink: &mut Sink) {
        let ghost b = sink.bytes@;
        let ghost o = sink.offset as int;
        self.0.encode(sink);
        self.1.encode(sink);
        proof {
            lemma_write_twice(
                b,
                o,
                A::spec_encoding(self.0.model()),
                B::spec_encoding(self.1.model()),
            );
        }
    }

    fn decode(source: &mut Source) -> (r: Result<Self, CanonError>) {
        let a = match A::decode(source) {
            Ok(a) => a,
            Err(e) => return Err(e),
        };
        let b = match B::decode(source) {
            Ok(b) => b,
            Err(e) => return Err(e),
        };
        proof {
            let rest = old(source).remaining();
            if let Decoded::Value(_, n) = A::spec_decoding(rest) {
                if let Decoded::Value(_, m) = B::spec_decoding(rest.skip(n as int)) {
                    assert(rest.skip(n as int).skip(m as int) =~= rest.skip((n + m) as int));
                }
            }
        }
        Ok((a, b))
    }

    fn encoded_len(&self) -> (n: usize) {
        self.0.encoded_len() + self.1.encoded_len()
    }

    proof fn lemma_decode_encoding(&self, rest: Seq<u8>) {
        lemma_decode_pair(self.0, self.1, rest);
    }
}

impl<A: Canon, B: Canon, C: Canon> Canon for (A, B, C) {
    type Model = (A::Model, B::Model, C::Model);

    open spec fn model(&self) -> (A::Model, B::Model, C::Model) {
        (self.0.model(), self.1.model(), self.2.model())
    }

    open spec fn can_encode(&self) -> bool {
        self.0.can_encode() && self.1.can_encode() && self.2.can_encode()
    }

    /// The first element, then the others as a tuple.
    open spec fn spec_encoding(m: (A::Model, B::Model, C::Model)) -> Seq<u8> {
        A::spec_encoding(m.0) + <(B, C)>::spec_encoding((m.1, m.2))
    }

    open spec fn spec_decoding(bytes: Seq<u8>) -> Decoded<(A::Model, B::Model, C::Model)> {
        decode_pair::<A, (B, C)>(bytes).map(|p: (A::Model, (B::Model, C::Model))| (p.0, p.1.0, p.1.1))
    }

    fn encode(&self, sink: &mut Sink) {
        let ghost b = sink.bytes@;
        let ghost o = sink.offset as int;
        let ghost m = self.model();
        let ghost e0 = A::spec_encoding(self.0.model());
        let ghost e1 = B::spec_encoding(self.1.model());
        let ghost e2 = C::spec_encoding(self.2.model());
        let ghost s0 = <(A, B, C)>::spec_encoding((m.0, m.1, m.2));
        let ghost s1 = <(B, C)>::spec_encoding((m.1, m.2));
        let ghost s2 = e2;
        let ghost a0 = Seq::<u8>::empty();
        proof {
            assert(a0 + s0 =~= s0);
            assert(b.take(o) + a0 + b.skip(o) =~= b);
        }
        encode_next(&self.0, sink, Ghost(b), Ghost(o), Ghost(a0));
        let ghost a1 = a0 + e0;
        proof {
            assert(s0 == e0 + s1);
            assert(a1 + s1 =~= a0 + s0);
        }
        encode_next(&self.1, sink, Ghost(b), Ghost(o), Ghost(a1));
        let ghost a2 = a1 + e1;
        proof {
            assert(s1 == e1 + s2);
            assert(a2 + s2 =~= a1 + s1);
        }
        encode_next(&self.2, sink, Ghost(b), Ghost(o), Ghost(a2));
        let ghost a3 = a2 + e2;
    }

    fn decode(source: &mut Source) -> (r: Result<Self, CanonError>) {
        let ghost rest = source.remaining();
        let a = match A::decode(source) {
            Ok(a) => a,
            Err(e) => return Err(e),
        };
        let others = match <(B, C)>::decode(source) {
            Ok(t) => t,
            Err(e) => return Err(e),
        };
        proof {
            if let Decoded::Value(_, n) = A::spec_decoding(rest) {
                if let Decoded::Value(_, m) = <(B, C)>::spec_decoding(rest.skip(n as int)) {
                    assert(rest.skip(n as int).skip(m as int) =~= rest.skip((n + m) as int));
                }
            }
        }
        let (b_, c_) = others;
        Ok((a, b_, c_))
    }

    fn encoded_len(&self) -> (n: usize) {
        self.0.encoded_len() + self.1.encoded_len() + self.2.encoded_len()
    }

    proof fn lemma_decode_encoding(&self, rest: Seq<u8>) {
        lemma_decode_pair(self.0, (self.1, self.2), rest);
    }
}


impl<A: Canon, B: Canon, C: Canon, D: Canon> Canon for (A, B, C, D) {
    type Model = (A::Model, B::Model, C::Model, D::Model);

    open spec fn model(&self) -> (A::Model, B::Model, C::Model, D::Model) {
        (self.0.model(), self.1.model(), self.2.model(), self.3.model())
    }

    open spec fn can_encode(&self) -> bool {
        self.0.can_encode() && self.1.can_encode() && self.2.can_encode() && self.3.can_encode()
    }

    /// The first element, then the others as a tuple.
    open spec fn spec_encoding(m: (A::Model, B::Model, C::Model, D::Model)) -> Seq<u8> {
        A::spec_encoding(m.0) + <(B, C, D)>::spec_encoding((m.1, m.2, m.3))
    }

    open spec fn spec_decoding(bytes: Seq<u8>) -> Decoded<(A::Model, B::Model, C::Model, D::Model)> {
        decode_pair::<A, (B, C, D)>(bytes).map(|p: (A::Model, (B::Model, C::Model, D::Model))| (p.0, p.1.0, p.1.1, p.1.2))
    }

    fn encode(&self, sink: &mut Sink) {
        let ghost b = sink.bytes@;
        let ghost o = sink.offset as int;
        let ghost m = self.model();
        let ghost e0 = A::spec_encoding(self.0.model());
        let ghost e1 = B::spec_encoding(self.1.model());
        let ghost e2 = C::spec_encoding(self.2.model());
        let ghost e3 = D::spec_encoding(self.3.model());
        let ghost s0 = <(A, B, C, D)>::spec_encoding((m.0, m.1, m.2, m.3));
        let ghost s1 = <(B, C, D)>::spec_encoding((m.1, m.2, m.3));
        let ghost s2 = <(C, D)>::spec_encoding((m.2, m.3));
        let ghost s3 = e3;
        let ghost a0 = Seq::<u8>::empty();
        proof {
            assert(a0 + s0 =~= s0);
            assert(b.take(o) + a0 + b.skip(o) =~= b);
        }
        encode_next(&self.0, sink, Ghost(b), Ghost(o), Ghost(a0));
        let ghost a1 = a0 + e0;
        proof {
            assert(s0 == e0 + s1);
            assert(a1 + s1 =~= a0 + s0);
        }
        encode_next(&self.1, sink, Ghost(b), Ghost(o), Ghost(a1));
        let ghost a2 = a1 + e1;
        proof {
            assert(s1 == e1 + s2);
            assert(a2 + s2 =~= a1 + s1);
        }
        encode_next(&self.2, sink, Ghost(b), Ghost(o), Ghost(a2));
        let ghost a3 = a2 + e2;
        proof {
            assert(s2 == e2 + s3);
            assert(a3 + s3 =~= a2 + s2);
        }
        encode_next(&self.3, sink, Ghost(b), Ghost(o), Ghost(a3));
        let ghost a4 = a3 + e3;
    }

    fn decode(source: &mut Source) -> (r: Result<Self, CanonError>) {
        let ghost rest = source.remaining();
        let a = match A::decode(source) {
            Ok(a) => a,
            Err(e) => return Err(e),
        };
        let others = match <(B, C, D)>::decode(source) {
            Ok(t) => t,
            Err(e) => return Err(e),
        };
        proof {
            if let Decoded::Value(_, n) = A::spec_decoding(rest) {
                if let Decoded::Value(_, m) = <(B, C, D)>::spec_decoding(rest.skip(n as int)) {
                    assert(rest.skip(n as int).skip(m as int) =~= rest.skip((n + m) as int));
                }
            }
        }
        let (b_, c_, d_) = others;
        Ok((a, b_, c_, d_))
    }

    fn encoded_len(&self) -> (n: usize) {
        self.0.encoded_len() + self.1.encoded_len() + self.2.encoded_len() + self.3.encoded_len()
    }

    proof fn lemma_decode_encoding(&self, rest: Seq<u8>) {
        lemma_decode_pair(self.0, (self.1, self.2, self.3), rest);
    }
}


impl<A: Canon, B: Canon, C: Canon, D: Canon, E: Canon> Canon for (A, B, C, D, E) {
    type Model = (A::Model, B::Model, C::Model, D::Model, E::Model);

    open spec fn model(&self) -> (A::Model, B::Model, C::Model, D::Model, E::Model) {
        (self.0.model(), self.1.model(), self.2.model(), self.3.model(), self.4.model())
    }

    open spec fn can_encode(&self) -> bool {
        self.0.can_encode() && self.1.can_encode() && self.2.can_encode() && self.3.can_encode() && self.4.can_encode()
    }

    /// The first element, then the others as a tuple.
    open spec fn spec_encoding(m: (A::Model, B::Model, C::Model, D::Model, E::Model)) -> Seq<u8> {
        A::spec_encoding(m.0) + <(B, C, D, E)>::spec_encoding((m.1, m.2, m.3, m.4))
    }

    open spec fn spec_decoding(bytes: Seq<u8>) -> Decoded<(A::Model, B::Model, C::Model, D::Model, E::Model)> {
        decode_pair::<A, (B, C, D, E)>(bytes).map(|p: (A::Model, (B::Model, C::Model, D::Model, E::Model))| (p.0, p.1.0, p.1.1, p.1.2, p.1.3))
    }

    fn encode(&self, sink: &mut Sink) {
        let ghost b = sink.bytes@;
        let ghost o = sink.offset as int;
        let ghost m = self.model();
        let ghost e0 = A::spec_encoding(self.0.model());
        let ghost e1 = B::spec_encoding(self.1.model());
        let ghost e2 = C::spec_encoding(self.2.model());
        let ghost e3 = D::spec_encoding(self.3.model());
        let ghost e4 = E::spec_encoding(self.4.model());
        let ghost s0 = <(A, B, C, D, E)>::spec_encoding((m.0, m.1, m.2, m.3, m.4));
        let ghost s1 = <(B, C, D, E)>::spec_encoding((m.1, m.2, m.3, m.4));
        let ghost s2 = <(C, D, E)>::spec_encoding((m.2, m.3, m.4));
        let ghost s3 = <(D, E)>::spec_encoding((m.3, m.4));
        let ghost s4 = e4;
        let ghost a0 = Seq::<u8>::empty();
        proof {
            assert(a0 + s0 =~= s0);
            assert(b.take(o) + a0 + b.skip(o) =~= b);
        }
        encode_next(&self.0, sink, Ghost(b), Ghost(o), Ghost(a0));
        let ghost a1 = a0 + e0;
        proof {
            assert(s0 == e0 + s1);
            assert(a1 + s1 =~= a0 + s0);
        }
        encode_next(&self.1, sink, Ghost(b), Ghost(o), Ghost(a1));
        let ghost a2 = a1 + e1;
        proof {
            assert(s1 == e1 + s2);
            assert(a2 + s2 =~= a1 + s1);
        }
        encode_next(&self.2, sink, Ghost(b), Ghost(o), Ghost(a2));
        let ghost a3 = a2 + e2;
        proof {
            assert(s2 == e2 + s3);
            assert(a3 + s3 =~= a2 + s2);
        }
        encode_next(&self.3, sink, Ghost(b), Ghost(o), Ghost(a3));
        let ghost a4 = a3 + e3;
        proof {
            assert(s3 == e3 + s4);
            assert(a4 + s4 =~= a3 + s3);
        }
        encode_next(&self.4, sink, Ghost(b), Ghost(o), Ghost(a4));
        let ghost a5 = a4 + e4;
    }

    fn decode(source: &mut Source) -> (r: Result<Self, CanonError>) {
        let ghost rest = source.remaining();
        let a = match A::decode(source) {
            Ok(a) => a,
            Err(e) => return Err(e),
        };
        let others = match <(B, C, D, E)>::decode(source) {
            Ok(t) => t,
            Err(e) => return Err(e),
        };
        proof {
            if let Decoded::Value(_, n) = A::spec_decoding(rest) {
                if let Decoded::Value(_, m) = <(B, C, D, E)>::spec_decoding(rest.skip(n as int)) {
                    assert(rest.skip(n as int).skip(m as int) =~= rest.skip((n + m) as int));
                }
            }
        }
        let (b_, c_, d_, e_) = others;
        Ok((a, b_, c_, d_, e_))
    }

    fn encoded_len(&self) -> (n: usize) {
        self.0.encoded_len() + self.1.encoded_len() + self.2.encoded_len() + self.3.encoded_len() + self.4.encoded_len()
    }

    proof fn lemma_decode_encoding(&self, rest: Seq<u8>) {
        lemma_decode_pair(self.0, (self.1, self.2, self.3, self.4), rest);
    }
}


impl<A: Canon, B: Canon, C: Canon, D: Canon, E: Canon, F: Canon> Canon for (A, B, C, D, E, F) {
    type Model = (A::Model, B::Model, C::Model, D::Model, E::Model, F::Model);

    open spec fn model(&self) -> (A::Model, B::Model, C::Model, D::Model, E::Model, F::Model) {
        (self.0.model(), self.1.model(), self.2.model(), self.3.model(), self.4.model(), self.5.model())
    }

    open spec fn can_encode(&self) -> bool {
        self.0.can_encode() && self.1.can_encode() && self.2.can_encode() && self.3.can_encode() && self.4.can_encode() && self.5.can_encode()
    }

    /// The first element, then the others as a tuple.
    open spec fn spec_encoding(m: (A::Model, B::Model, C::Model, D::Model, E::Model, F::Model)) -> Seq<u8> {
        A::spec_encoding(m.0) + <(B, C, D, E, F)>::spec_encoding((m.1, m.2, m.3, m.4, m.5))
    }

    open spec fn spec_decoding(bytes: Seq<u8>) -> Decoded<(A::Model, B::Model, C::Model, D::Model, E::Model, F::Model)> {
        decode_pair::<A, (B, C, D, E, F)>(bytes).map(|p: (A::Model, (B::Model, C::Model, D::Model, E::Model, F::Model))| (p.0, p.1.0, p.1.1, p.1.2, p.1.3, p.1.4))
    }

    fn encode(&self, sink: &mut Sink) {
        let ghost b = sink.bytes@;
        let ghost o = sink.offset as int;
        let ghost m = self.model();
        let ghost e0 = A::spec_encoding(self.0.model());
        let ghost e1 = B::spec_encoding(self.1.model());
        let ghost e2 = C::spec_encoding(self.2.model());
        let ghost e3 = D::spec_encoding(self.3.model());
        let ghost e4 = E::spec_encoding(self.4.model());
        let ghost e5 = F::spec_encoding(self.5.model());
        let ghost s0 = <(A, B, C, D, E, F)>::spec_encoding((m.0, m.1, m.2, m.3, m.4, m.5));
        let ghost s1 = <(B, C, D, E, F)>::spec_encoding((m.1, m.2, m.3, m.4, m.5));
        let ghost s2 = <(C, D, E, F)>::spec_encoding((m.2, m.3, m.4, m.5));
        let ghost s3 = <(D, E, F)>::spec_encoding((m.3, m.4, m.5));
        let ghost s4 = <(E, F)>::spec_encoding((m.4, m.5));
        let ghost s5 = e5;
        let ghost a0 = Seq::<u8>::empty();
        proof {
            assert(a0 + s0 =~= s0);
            assert(b.take(o) + a0 + b.skip(o) =~= b);
        }
        encode_next(&self.0, sink, Ghost(b), Ghost(o), Ghost(a0));
        let ghost a1 = a0 + e0;
        proof {
            assert(s0 == e0 + s1);
            assert(a1 + s1 =~= a0 + s0);
        }
        encode_next(&self.1, sink, Ghost(b), Ghost(o), Ghost(a1));
        let ghost a2 = a1 + e1;
        proof {
            assert(s1 == e1 + s2);
            assert(a2 + s2 =~= a1 + s1);
        }
        encode_next(&self.2, sink, Ghost(b), Ghost(o), Ghost(a2));
        let ghost a3 = a2 + e2;
        proof {
            assert(s2 == e2 + s3);
            assert(a3 + s3 =~= a2 + s2);
        }
        encode_next(&self.3, sink, Ghost(b), Ghost(o), Ghost(a3));
        let ghost a4 = a3 + e3;
        proof {
            assert(s3 == e3 + s4);
            assert(a4 + s4 =~= a3 + s3);
        }
        encode_next(&self.4, sink, Ghost(b), Ghost(o), Ghost(a4));
        let ghost a5 = a4 + e4;
        proof {
            assert(s4 == e4 + s5);
            assert(a5 + s5 =~= a4 + s4);
        }
        encode_next(&self.5, sink, Ghost(b), Ghost(o), Ghost(a5));
        let ghost a6 = a5 + e5;
    }

    fn decode(source: &mut Source) -> (r: Result<Self, CanonError>) {
        let ghost rest = source.remaining();
        let a = match A::decode(source) {
            Ok(a) => a,
            Err(e) => return Err(e),
        };
        let others = match <(B, C, D, E, F)>::decode(source) {
            Ok(t) => t,
            Err(e) => return Err(e),
        };
        proof {
            if let Decoded::Value(_, n) = A::spec_decoding(rest) {
                if let Decoded::Value(_, m) = <(B, C, D, E, F)>::spec_decoding(rest.skip(n as int)) {
                    assert(rest.skip(n as int).skip(m as int) =~= rest.skip((n + m) as int));
                }
            }
        }
        let (b_, c_, d_, e_, f_) = others;
        Ok((a, b_, c_, d_, e_, f_))
    }

    fn encoded_len(&self) -> (n: usize) {
        self.0.encoded_len() + self.1.encoded_len() + self.2.encoded_len() + self.3.encoded_len() + self.4.encoded_len() + self.5.encoded_len()
    }

    proof fn lemma_decode_encoding(&self, rest: Seq<u8>) {
        lemma_decode_pair(self.0, (self.1, self.2, self.3, self.4, self.5), rest);
    }
}


impl<A: Canon, B: Canon, C: Canon, D: Canon, E: Canon, F: Canon, G: Canon> Canon for (A, B, C, D, E, F, G) {
    type Model = (A::Model, B::Model, C::Model, D::Model, E::Model, F::Model, G::Model);

    open spec fn model(&self) -> (A::Model, B::Model, C::Model, D::Model, E::Model, F::Model, G::Model) {
        (self.0.model(), self.1.model(), self.2.model(), self.3.model(), self.4.model(), self.5.model(), self.6.model())
    }

    open spec fn can_encode(&self) -> bool {
        self.0.can_encode() && self.1.can_encode() && self.2.can_encode() && self.3.can_encode() && self.4.can_encode() && self.5.can_encode() && self.6.can_encode()
    }

    /// The first element, then the others as a tuple.
    open spec fn spec_encoding(m: (A::Model, B::Model, C::Model, D::Model, E::Model, F::Model, G::Model)) -> Seq<u8> {
        A::spec_encoding(m.0) + <(B, C, D, E, F, G)>::spec_encoding((m.1, m.2, m.3, m.4, m.5, m.6))
    }

    open spec fn spec_decoding(bytes: Seq<u8>) -> Decoded<(A::Model, B::Model, C::Model, D::Model, E::Model, F::Model, G::Model)> {
        decode_pair::<A, (B, C, D, E, F, G)>(bytes).map(|p: (A::Model, (B::Model, C::Model, D::Model, E::Model, F::Model, G::Model))| (p.0, p.1.0, p.1.1, p.1.2, p.1.3, p.1.4, p.1.5))
    }

    fn encode(&self, sink: &mut Sink) {
        let ghost b = sink.bytes@;
        let ghost o = sink.offset as int;
        let ghost m = self.model();
        let ghost e0 = A::spec_encoding(self.0.model());
        let ghost e1 = B::spec_encoding(self.1.model());
        let ghost e2 = C::spec_encoding(self.2.model());
        let ghost e3 = D::spec_encoding(self.3.model());
        let ghost e4 = E::spec_encoding(self.4.model());
        let ghost e5 = F::spec_encoding(self.5.model());
        let ghost e6 = G::spec_encoding(self.6.model());
        let ghost s0 = <(A, B, C, D, E, F, G)>::spec_encoding((m.0, m.1, m.2, m.3, m.4, m.5, m.6));
        let ghost s1 = <(B, C, D, E, F, G)>::spec_encoding((m.1, m.2, m.3, m.4, m.5, m.6));
        let ghost s2 = <(C, D, E, F, G)>::spec_encoding((m.2, m.3, m.4, m.5, m.6));
        let ghost s3 = <(D, E, F, G)>::spec_encoding((m.3, m.4, m.5, m.6));
        let ghost s4 = <(E, F, G)>::spec_encoding((m.4, m.5, m.6));
        let ghost s5 = <(F, G)>::spec_encoding((m.5, m.6));
        let ghost s6 = e6;
        let ghost a0 = Seq::<u8>::empty();
        proof {
            assert(a0 + s0 =~= s0);
            assert(b.take(o) + a0 + b.skip(o) =~= b);
        }
        encode_next(&self.0, sink, Ghost(b), Ghost(o), Ghost(a0));
        let ghost a1 = a0 + e0;
        proof {
            assert(s0 == e0 + s1);
            assert(a1 + s1 =~= a0 + s0);
        }
        encode_next(&self.1, sink, Ghost(b), Ghost(o), Ghost(a1));
        let ghost a2 = a1 + e1;
        proof {
            assert(s1 == e1 + s2);
            assert(a2 + s2 =~= a1 + s1);
        }
        encode_next(&self.2, sink, Ghost(b), Ghost(o), Ghost(a2));
        let ghost a3 = a2 + e2;
        proof {
            assert(s2 == e2 + s3);
            assert(a3 + s3 =~= a2 + s2);
        }
        encode_next(&self.3, sink, Ghost(b), Ghost(o), Ghost(a3));
        let ghost a4 = a3 + e3;
        proof {
            assert(s3 == e3 + s4);
            assert(a4 + s4 =~= a3 + s3);
        }
        encode_next(&self.4, sink, Ghost(b), Ghost(o), Ghost(a4));
        let ghost a5 = a4 + e4;
        proof {
            assert(s4 == e4 + s5);
            assert(a5 + s5 =~= a4 + s4);
        }
        encode_next(&self.5, sink, Ghost(b), Ghost(o), Ghost(a5));
        let ghost a6 = a5 + e5;
        proof {
            assert(s5 == e5 + s6);
            assert(a6 + s6 =~= a5 + s5);
        }
        encode_next(&self.6, sink, Ghost(b), Ghost(o), Ghost(a6));
        let ghost a7 = a6 + e6;
    }

    fn decode(source: &mut Source) -> (r: Result<Self, CanonError>) {
        let ghost rest = source.remaining();
        let a = match A::decode(source) {
            Ok(a) => a,
            Err(e) => return Err(e),
        };
        let others = match <(B, C, D, E, F, G)>::decode(source) {
            Ok(t) => t,
            Err(e) => return Err(e),
        };
        proof {
            if let Decoded::Value(_, n) = A::spec_decoding(rest) {
                if let Decoded::Value(_, m) = <(B, C, D, E, F, G)>::spec_decoding(rest.skip(n as int)) {
                    assert(rest.skip(n as int).skip(m as int) =~= rest.skip((n + m) as int));
                }
            }
        }
        let (b_, c_, d_, e_, f_, g_) = others;
        Ok((a, b_, c_, d_, e_, f_, g_))
    }

    fn encoded_len(&self) -> (n: usize) {
        self.0.encoded_len() + self.1.encoded_len() + self.2.encoded_len() + self.3.encoded_len() + self.4.encoded_len() + self.5.encoded_len() + self.6.encoded_len()
    }

    proof fn lemma_decode_encoding(&self, rest: Seq<u8>) {
        lemma_decode_pair(self.0, (self.1, self.2, self.3, self.4, self.5, self.6), rest);
    }
}


impl<A: Canon, B: Canon, C: Canon, D: Canon, E: Canon, F: Canon, G: Canon, H: Canon> Canon for (A, B, C, D, E, F, G, H) {
    type Model = (A::Model, B::Model, C::Model, D::Model, E::Model, F::Model, G::Model, H::Model);

    open spec fn model(&self) -> (A::Model, B::Model, C::Model, D::Model, E::Model, F::Model, G::Model, H::Model) {
        (self.0.model(), self.1.model(), self.2.model(), self.3.model(), self.4.model(), self.5.model(), self.6.model(), self.7.model())
    }

    open spec fn can_encode(&self) -> bool {
        self.0.can_encode() && self.1.can_encode() && self.2.can_encode() && self.3.can_encode() && self.4.can_encode() && self.5.can_encode() && self.6.can_encode() && self.7.can_encode()
    }

    /// The first element, then the others as a tuple.
    open spec fn spec_encoding(m: (A::Model, B::Model, C::Model, D::Model, E::Model, F::Model, G::Model, H::Model)) -> Seq<u8> {
        A::spec_encoding(m.0) + <(B, C, D, E, F, G, H)>::spec_encoding((m.1, m.2, m.3, m.4, m.5, m.6, m.7))
    }

    open spec fn spec_decoding(bytes: Seq<u8>) -> Decoded<(A::Model, B::Model, C::Model, D::Model, E::Model, F::Model, G::Model, H::Model)> {
        decode_pair::<A, (B, C, D, E, F, G, H)>(bytes).map(|p: (A::Model, (B::Model, C::Model, D::Model, E::Model, F::Model, G::Model, H::Model))| (p.0, p.1.0, p.1.1, p.1.2, p.1.3, p.1.4, p.1.5, p.1.6))
    }

    fn encode(&self, sink: &mut Sink) {
        let ghost b = sink.bytes@;
        let ghost o = sink.offset as int;
        let ghost m = self.model();
        let ghost e0 = A::spec_encoding(self.0.model());
        let ghost e1 = B::spec_encoding(self.1.model());
        let ghost e2 = C::spec_encoding(self.2.model());
        let ghost e3 = D::spec_encoding(self.3.model());
        let ghost e4 = E::spec_encoding(self.4.model());
        let ghost e5 = F::spec_encoding(self.5.model());
        let ghost e6 = G::spec_encoding(self.6.model());
        let ghost e7 = H::spec_encoding(self.7.model());
        let ghost s0 = <(A, B, C, D, E, F, G, H)>::spec_encoding((m.0, m.1, m.2, m.3, m.4, m.5, m.6, m.7));
        let ghost s1 = <(B, C, D, E, F, G, H)>::spec_encoding((m.1, m.2, m.3, m.4, m.5, m.6, m.7));
        let ghost s2 = <(C, D, E, F, G, H)>::spec_encoding((m.2, m.3, m.4, m.5, m.6, m.7));
        let ghost s3 = <(D, E, F, G, H)>::spec_encoding((m.3, m.4, m.5, m.6, m.7));
        let ghost s4 = <(E, F, G, H)>::spec_encoding((m.4, m.5, m.6, m.7));
        let ghost s5 = <(F, G, H)>::spec_encoding((m.5, m.6, m.7));
        let ghost s6 = <(G, H)>::spec_encoding((m.6, m.7));
        let ghost s7 = e7;
        let ghost a0 = Seq::<u8>::empty();
        proof {
            assert(a0 + s0 =~= s0);
            assert(b.take(o) + a0 + b.skip(o) =~= b);
        }
        encode_next(&self.0, sink, Ghost(b), Ghost(o), Ghost(a0));
        let ghost a1 = a0 + e0;
        proof {
            assert(s0 == e0 + s1);
            assert(a1 + s1 =~= a0 + s0);
        }
        encode_next(&self.1, sink, Ghost(b), Ghost(o), Ghost(a1));
        let ghost a2 = a1 + e1;
        proof {
            assert(s1 == e1 + s2);
            assert(a2 + s2 =~= a1 + s1);
        }
        encode_next(&self.2, sink, Ghost(b), Ghost(o), Ghost(a2));
        let ghost a3 = a2 + e2;
        proof {
            assert(s2 == e2 + s3);
            assert(a3 + s3 =~= a2 + s2);
        }
        encode_next(&self.3, sink, Ghost(b), Ghost(o), Ghost(a3));
        let ghost a4 = a3 + e3;
        proof {
            assert(s3 == e3 + s4);
            assert(a4 + s4 =~= a3 + s3);
        }
        encode_next(&self.4, sink, Ghost(b), Ghost(o), Ghost(a4));
        let ghost a5 = a4 + e4;
        proof {
            assert(s4 == e4 + s5);
            assert(a5 + s5 =~= a4 + s4);
        }
        encode_next(&self.5, sink, Ghost(b), Ghost(o), Ghost(a5));
        let ghost a6 = a5 + e5;
        proof {
            assert(s5 == e5 + s6);
            assert(a6 + s6 =~= a5 + s5);
        }
        encode_next(&self.6, sink, Ghost(b), Ghost(o), Ghost(a6));
        let ghost a7 = a6 + e6;
        proof {
            assert(s6 == e6 + s7);
            assert(a7 + s7 =~= a6 + s6);
        }
        encode_next(&self.7, sink, Ghost(b), Ghost(o), Ghost(a7));
        let ghost a8 = a7 + e7;
    }

    fn decode(source: &mut Source) -> (r: Result<Self, CanonError>) {
        let ghost rest = source.remaining();
        let a = match A::decode(source) {
            Ok(a) => a,
            Err(e) => return Err(e),
        };
        let others = match <(B, C, D, E, F, G, H)>::decode(source) {
            Ok(t) => t,
            Err(e) => return Err(e),
        };
        proof {
            if let Decoded::Value(_, n) = A::spec_decoding(rest) {
                if let Decoded::Value(_, m) = <(B, C, D, E, F, G, H)>::spec_decoding(rest.skip(n as int)) {
                    assert(rest.skip(n as int).skip(m as int) =~= rest.skip((n + m) as int));
                }
            }
        }
        let (b_, c_, d_, e_, f_, g_, h_) = others;
        Ok((a, b_, c_, d_, e_, f_, g_, h_))
    }

    fn encoded_len(&self) -> (n: usize) {
        self.0.encoded_len() + self.1.encoded_len() + self.2.encoded_len() + self.3.encoded_len() + self.4.encoded_len() + self.5.encoded_len() + self.6.encoded_len() + self.7.encoded_len()
    }

    proof fn lemma_decode_encoding(&self, rest: Seq<u8>) {
        lemma_decode_pair(self.0, (self.1, self.2, self.3, self.4, self.5, self.6, self.7), rest);
    }
}


impl<A: Canon, B: Canon, C: Canon, D: Canon, E: Canon, F: Canon, G: Canon, H: Canon, I: Canon> Canon for (A, B, C, D, E, F, G, H, I) {
    type Model = (A::Model, B::Model, C::Model, D::Model, E::Model, F::Model, G::Model, H::Model, I::Model);

    open spec fn model(&self) -> (A::Model, B::Model, C::Model, D::Model, E::Model, F::Model, G::Model, H::Model, I::Model) {
        (self.0.model(), self.1.model(), self.2.model(), self.3.model(), self.4.model(), self.5.model(), self.6.model(), self.7.model(), self.8.model())
    }

    open spec fn can_encode(&self) -> bool {
        self.0.can_encode() && self.1.can_encode() && self.2.can_encode() && self.3.can_encode() && self.4.can_encode() && self.5.can_encode() && self.6.can_encode() && self.7.can_encode() && self.8.can_encode()
    }

    /// The first element, then the others as a tuple.
    open spec fn spec_encoding(m: (A::Model, B::Model, C::Model, D::Model, E::Model, F::Model, G::Model, H::Model, I::Model)) -> Seq<u8> {
        A::spec_encoding(m.0) + <(B, C, D, E, F, G, H, I)>::spec_encoding((m.1, m.2, m.3, m.4, m.5, m.6, m.7, m.8))
    }

    open spec fn spec_decoding(bytes: Seq<u8>) -> Decoded<(A::Model, B::Model, C::Model, D::Model, E::Model, F::Model, G::Model, H::Model, I::Model)> {
        decode_pair::<A, (B, C, D, E, F, G, H, I)>(bytes).map(|p: (A::Model, (B::Model, C::Model, D::Model, E::Model, F::Model, G::Model, H::Model, I::Model))| (p.0, p.1.0, p.1.1, p.1.2, p.1.3, p.1.4, p.1.5, p.1.6, p.1.7))
    }

    #[verifier::rlimit(100)]
    #[verifier::spinoff_prover]
    fn encode(&self, sink: &mut Sink) {
        let ghost b = sink.bytes@;
        let ghost o = sink.offset as int;
        let ghost m = self.model();
        let ghost e0 = A::spec_encoding(self.0.model());
        let ghost e1 = B::spec_encoding(self.1.model());
        let ghost e2 = C::spec_encoding(self.2.model());
        let ghost e3 = D::spec_encoding(self.3.model());
        let ghost e4 = E::spec_encoding(self.4.model());
        let ghost e5 = F::spec_encoding(self.5.model());
        let ghost e6 = G::spec_encoding(self.6.model());
        let ghost e7 = H::spec_encoding(self.7.model());
        let ghost e8 = I::spec_encoding(self.8.model());
        let ghost s0 = <(A, B, C, D, E, F, G, H, I)>::spec_encoding((m.0, m.1, m.2, m.3, m.4, m.5, m.6, m.7, m.8));
        let ghost s1 = <(B, C, D, E, F, G, H, I)>::spec_encoding((m.1, m.2, m.3, m.4, m.5, m.6, m.7, m.8));
        let ghost s2 = <(C, D, E, F, G, H, I)>::spec_encoding((m.2, m.3, m.4, m.5, m.6, m.7, m.8));
        let ghost s3 = <(D, E, F, G, H, I)>::spec_encoding((m.3, m.4, m.5, m.6, m.7, m.8));
        let ghost s4 = <(E, F, G, H, I)>::spec_encoding((m.4, m.5, m.6, m.7, m.8));
        let ghost s5 = <(F, G, H, I)>::spec_encoding((m.5, m.6, m.7, m.8));
        let ghost s6 = <(G, H, I)>::spec_encoding((m.6, m.7, m.8));
        let ghost s7 = <(H, I)>::spec_encoding((m.7, m.8));
        let ghost s8 = e8;
        let ghost a0 = Seq::<u8>::empty();
        proof {
            assert(a0 + s0 =~= s0);
            assert(b.take(o) + a0 + b.skip(o) =~= b);
        }
        encode_next(&self.0, sink, Ghost(b), Ghost(o), Ghost(a0));
        let ghost a1 = a0 + e0;
        proof {
            assert(s0 == e0 + s1);
            assert(a1 + s1 =~= a0 + s0);
        }
        encode_next(&self.1, sink, Ghost(b), Ghost(o), Ghost(a1));
        let ghost a2 = a1 + e1;
        proof {
            assert(s1 == e1 + s2);
            assert(a2 + s2 =~= a1 + s1);
        }
        encode_next(&self.2, sink, Ghost(b), Ghost(o), Ghost(a2));
        let ghost a3 = a2 + e2;
        proof {
            assert(s2 == e2 + s3);
            assert(a3 + s3 =~= a2 + s2);
        }
        encode_next(&self.3, sink, Ghost(b), Ghost(o), Ghost(a3));
        let ghost a4 = a3 + e3;
        proof {
            assert(s3 == e3 + s4);
            assert(a4 + s4 =~= a3 + s3);
        }
        encode_next(&self.4, sink, Ghost(b), Ghost(o), Ghost(a4));
        let ghost a5 = a4 + e4;
        proof {
            assert(s4 == e4 + s5);
            assert(a5 + s5 =~= a4 + s4);
        }
        encode_next(&self.5, sink, Ghost(b), Ghost(o), Ghost(a5));
        let ghost a6 = a5 + e5;
        proof {
            assert(s5 == e5 + s6);
            assert(a6 + s6 =~= a5 + s5);
        }
        encode_next(&self.6, sink, Ghost(b), Ghost(o), Ghost(a6));
        let ghost a7 = a6 + e6;
        proof {
            assert(s6 == e6 + s7);
            assert(a7 + s7 =~= a6 + s6);
        }
        encode_next(&self.7, sink, Ghost(b), Ghost(o), Ghost(a7));
        let ghost a8 = a7 + e7;
        proof {
            assert(s7 == e7 + s8);
            assert(a8 + s8 =~= a7 + s7);
        }
        encode_next(&self.8, sink, Ghost(b), Ghost(o), Ghost(a8));
        let ghost a9 = a8 + e8;
    }

    fn decode(source: &mut Source) -> (r: Result<Self, CanonError>) {
        let ghost rest = source.remaining();
        let a = match A::decode(source) {
            Ok(a) => a,
            Err(e) => return Err(e),
        };
        let others = match <(B, C, D, E, F, G, H, I)>::decode(source) {
            Ok(t) => t,
            Err(e) => return Err(e),
        };
        proof {
            if let Decoded::Value(_, n) = A::spec_decoding(rest) {
                if let Decoded::Value(_, m) = <(B, C, D, E, F, G, H, I)>::spec_decoding(rest.skip(n as int)) {
                    assert(rest.skip(n as int).skip(m as int) =~= rest.skip((n + m) as int));
                }
            }
        }
        let (b_, c_, d_, e_, f_, g_, h_, i_) = others;
        Ok((a, b_, c_, d_, e_, f_, g_, h_, i_))
    }

    fn encoded_len(&self) -> (n: usize) {
        self.0.encoded_len() + self.1.encoded_len() + self.2.encoded_len() + self.3.encoded_len() + self.4.encoded_len() + self.5.encoded_len() + self.6.encoded_len() + self.7.encoded_len() + self.8.encoded_len()
    }

    proof fn lemma_decode_encoding(&self, rest: Seq<u8>) {
        lemma_decode_pair(self.0, (self.1, self.2, self.3, self.4, self.5, self.6, self.7, self.8), rest);
    }
}


impl<A: Canon, B: Canon, C: Canon, D: Canon, E: Canon, F: Canon, G: Canon, H: Canon, I: Canon, J: Canon> Canon for (A, B, C, D, E, F, G, H, I, J) {
    type Model = (A::Model, B::Model, C::Model, D::Model, E::Model, F::Model, G::Model, H::Model, I::Model, J::Model);

    open spec fn model(&self) -> (A::Model, B::Model, C::Model, D::Model, E::Model, F::Model, G::Model, H::Model, I::Model, J::Model) {
        (self.0.model(), self.1.model(), self.2.model(), self.3.model(), self.4.model(), self.5.model(), self.6.model(), self.7.model(), self.8.model(), self.9.model())
    }

    open spec fn can_encode(&self) -> bool {
        self.0.can_encode() && self.1.can_encode() && self.2.can_encode() && self.3.can_encode() && self.4.can_encode() && self.5.can_encode() && self.6.can_encode() && self.7.can_encode() && self.8.can_encode() && self.9.can_encode()
    }

    /// The first element, then the others as a tuple.
    open spec fn spec_encoding(m: (A::Model, B::Model, C::Model, D::Model, E::Model, F::Model, G::Model, H::Model, I::Model, J::Model)) -> Seq<u8> {
        A::spec_encoding(m.0) + <(B, C, D, E, F, G, H, I, J)>::spec_encoding((m.1, m.2, m.3, m.4, m.5, m.6, m.7, m.8, m.9))
    }

    open spec fn spec_decoding(bytes: Seq<u8>) -> Decoded<(A::Model, B::Model, C::Model, D::Model, E::Model, F::Model, G::Model, H::Model, I::Model, J::Model)> {
        decode_pair::<A, (B, C, D, E, F, G, H, I, J)>(bytes).map(|p: (A::Model, (B::Model, C::Model, D::Model, E::Model, F::Model, G::Model, H::Model, I::Model, J::Model))| (p.0, p.1.0, p.1.1, p.1.2, p.1.3, p.1.4, p.1.5, p.1.6, p.1.7, p.1.8))
    }

    #[verifier::rlimit(100)]
    #[verifier::spinoff_prover]
    fn encode(&self, sink: &mut Sink) {
        let ghost b = sink.bytes@;
        let ghost o = sink.offset as int;
        let ghost m = self.model();
        let ghost e0 = A::spec_encoding(self.0.model());
        let ghost e1 = B::spec_encoding(self.1.model());
        let ghost e2 = C::spec_encoding(self.2.model());
        let ghost e3 = D::spec_encoding(self.3.model());
        let ghost e4 = E::spec_encoding(self.4.model());
        let ghost e5 = F::spec_encoding(self.5.model());
        let ghost e6 = G::spec_encoding(self.6.model());
        let ghost e7 = H::spec_encoding(self.7.model());
        let ghost e8 = I::spec_encoding(self.8.model());
        let ghost e9 = J::spec_encoding(self.9.model());
        let ghost s0 = <(A, B, C, D, E, F, G, H, I, J)>::spec_encoding((m.0, m.1, m.2, m.3, m.4, m.5, m.6, m.7, m.8, m.9));
        let ghost s1 = <(B, C, D, E, F, G, H, I, J)>::spec_encoding((m.1, m.2, m.3, m.4, m.5, m.6, m.7, m.8, m.9));
        let ghost s2 = <(C, D, E, F, G, H, I, J)>::spec_encoding((m.2, m.3, m.4, m.5, m.6, m.7, m.8, m.9));
        let ghost s3 = <(D, E, F, G, H, I, J)>::spec_encoding((m.3, m.4, m.5, m.6, m.7, m.8, m.9));
        let ghost s4 = <(E, F, G, H, I, J)>::spec_encoding((m.4, m.5, m.6, m.7, m.8, m.9));
        let ghost s5 = <(F, G, H, I, J)>::spec_encoding((m.5, m.6, m.7, m.8, m.9));
        let ghost s6 = <(G, H, I, J)>::spec_encoding((m.6, m.7, m.8, m.9));
        let ghost s7 = <(H, I, J)>::spec_encoding((m.7, m.8, m.9));
        let ghost s8 = <(I, J)>::spec_encoding((m.8, m.9));
        let ghost s9 = e9;
        let ghost a0 = Seq::<u8>::empty();
        proof {
            assert(a0 + s0 =~= s0);
            assert(b.take(o) + a0 + b.skip(o) =~= b);
        }
        encode_next(&self.0, sink, Ghost(b), Ghost(o), Ghost(a0));
        let ghost a1 = a0 + e0;
        proof {
            assert(s0 == e0 + s1);
            assert(a1 + s1 =~= a0 + s0);
        }
        encode_next(&self.1, sink, Ghost(b), Ghost(o), Ghost(a1));
        let ghost a2 = a1 + e1;
        proof {
            assert(s1 == e1 + s2);
            assert(a2 + s2 =~= a1 + s1);
        }
        encode_next(&self.2, sink, Ghost(b), Ghost(o), Ghost(a2));
        let ghost a3 = a2 + e2;
        proof {
            assert(s2 == e2 + s3);
            assert(a3 + s3 =~= a2 + s2);
        }
        encode_next(&self.3, sink, Ghost(b), Ghost(o), Ghost(a3));
        let ghost a4 = a3 + e3;
        proof {
            assert(s3 == e3 + s4);
            assert(a4 + s4 =~= a3 + s3);
        }
        encode_next(&self.4, sink, Ghost(b), Ghost(o), Ghost(a4));
        let ghost a5 = a4 + e4;
        proof {
            assert(s4 == e4 + s5);
            assert(a5 + s5 =~= a4 + s4);
        }
        encode_next(&self.5, sink, Ghost(b), Ghost(o), Ghost(a5));
        let ghost a6 = a5 + e5;
        proof {
            assert(s5 == e5 + s6);
            assert(a6 + s6 =~= a5 + s5);
        }
        encode_next(&self.6, sink, Ghost(b), Ghost(o), Ghost(a6));
        let ghost a7 = a6 + e6;
        proof {
            assert(s6 == e6 + s7);
            assert(a7 + s7 =~= a6 + s6);
        }
        encode_next(&self.7, sink, Ghost(b), Ghost(o), Ghost(a7));
        let ghost a8 = a7 + e7;
        proof {
            assert(s7 == e7 + s8);
            assert(a8 + s8 =~= a7 + s7);
        }
        encode_next(&self.8, sink, Ghost(b), Ghost(o), Ghost(a8));
        let ghost a9 = a8 + e8;
        proof {
            assert(s8 == e8 + s9);
            assert(a9 + s9 =~= a8 + s8);
        }
        encode_next(&self.9, sink, Ghost(b), Ghost(o), Ghost(a9));
        let ghost a10 = a9 + e9;
    }

    fn decode(source: &mut Source) -> (r: Result<Self, CanonError>) {
        let ghost rest = source.remaining();
        let a = match A::decode(source) {
            Ok(a) => a,
            Err(e) => return Err(e),
        };
        let others = match <(B, C, D, E, F, G, H, I, J)>::decode(source) {
            Ok(t) => t,
            Err(e) => return Err(e),
        };
        proof {
            if let Decoded::Value(_, n) = A::spec_decoding(rest) {
                if let Decoded::Value(_, m) = <(B, C, D, E, F, G, H, I, J)>::spec_decoding(rest.skip(n as int)) {
                    assert(rest.skip(n as int).skip(m as int) =~= rest.skip((n + m) as int));
                }
            }
        }
        let (b_, c_, d_, e_, f_, g_, h_, i_, j_) = others;
        Ok((a, b_, c_, d_, e_, f_, g_, h_, i_, j_))
    }

    fn encoded_len(&self) -> (n: usize) {
        self.0.encoded_len() + self.1.encoded_len() + self.2.encoded_len() + self.3.encoded_len() + self.4.encoded_len() + self.5.encoded_len() + self.6.encoded_len() + self.7.encoded_len() + self.8.encoded_len() + self.9.encoded_len()
    }

    proof fn lemma_decode_encoding(&self, rest: Seq<u8>) {
        lemma_decode_pair(self.0, (self.1, self.2, self.3, self.4, self.5, self.6, self.7, self.8, self.9), rest);
    }
}


impl<A: Canon, B: Canon, C: Canon, D: Canon, E: Canon, F: Canon, G: Canon, H: Canon, I: Canon, J: Canon, K: Canon> Canon for (A, B, C, D, E, F, G, H, I, J, K) {
    type Model = (A::Model, B::Model, C::Model, D::Model, E::Model, F::Model, G::Model, H::Model, I::Model, J::Model, K::Model);

    open spec fn model(&self) -> (A::Model, B::Model, C::Model, D::Model, E::Model, F::Model, G::Model, H::Model, I::Model, J::Model, K::Model) {
        (self.0.model(), self.1.model(), self.2.model(), self.3.model(), self.4.model(), self.5.model(), self.6.model(), self.7.model(), self.8.model(), self.9.model(), self.10.model())
    }

    open spec fn can_encode(&self) -> bool {
        self.0.can_encode() && self.1.can_encode() && self.2.can_encode() && self.3.can_encode() && self.4.can_encode() && self.5.can_encode() && self.6.can_encode() && self.7.can_encode() && self.8.can_encode() && self.9.can_encode() && self.10.can_encode()
    }

    /// The first element, then the others as a tuple.
    open spec fn spec_encoding(m: (A::Model, B::Model, C::Model, D::Model, E::Model, F::Model, G::Model, H::Model, I::Model, J::Model, K::Model)) -> Seq<u8> {
        A::spec_encoding(m.0) + <(B, C, D, E, F, G, H, I, J, K)>::spec_encoding((m.1, m.2, m.3, m.4, m.5, m.6, m.7, m.8, m.9, m.10))
    }

    open spec fn spec_decoding(bytes: Seq<u8>) -> Decoded<(A::Model, B::Model, C::Model, D::Model, E::Model, F::Model, G::Model, H::Model, I::Model, J::Model, K::Model)> {
        decode_pair::<A, (B, C, D, E, F, G, H, I, J, K)>(bytes).map(|p: (A::Model, (B::Model, C::Model, D::Model, E::Model, F::Model, G::Model, H::Model, I::Model, J::Model, K::Model))| (p.0, p.1.0, p.1.1, p.1.2, p.1.3, p.1.4, p.1.5, p.1.6, p.1.7, p.1.8, p.1.9))
    }

    #[verifier::rlimit(100)]
    #[verifier::spinoff_prover]
    fn encode(&self, sink: &mut Sink) {
        let ghost b = sink.bytes@;
        let ghost o = sink.offset as int;
        let ghost m = self.model();
        let ghost e0 = A::spec_encoding(self.0.model());
        let ghost e1 = B::spec_encoding(self.1.model());
        let ghost e2 = C::spec_encoding(self.2.model());
        let ghost e3 = D::spec_encoding(self.3.model());
        let ghost e4 = E::spec_encoding(self.4.model());
        let ghost e5 = F::spec_encoding(self.5.model());
        let ghost e6 = G::spec_encoding(self.6.model());
        let ghost e7 = H::spec_encoding(self.7.model());
        let ghost e8 = I::spec_encoding(self.8.model());
        let ghost e9 = J::spec_encoding(self.9.model());
        let ghost e10 = K::spec_encoding(self.10.model());
        let ghost s0 = <(A, B, C, D, E, F, G, H, I, J, K)>::spec_encoding((m.0, m.1, m.2, m.3, m.4, m.5, m.6, m.7, m.8, m.9, m.10));
        let ghost s1 = <(B, C, D, E, F, G, H, I, J, K)>::spec_encoding((m.1, m.2, m.3, m.4, m.5, m.6, m.7, m.8, m.9, m.10));
        let ghost s2 = <(C, D, E, F, G, H, I, J, K)>::spec_encoding((m.2, m.3, m.4, m.5, m.6, m.7, m.8, m.9, m.10));
        let ghost s3 = <(D, E, F, G, H, I, J, K)>::spec_encoding((m.3, m.4, m.5, m.6, m.7, m.8, m.9, m.10));
        let ghost s4 = <(E, F, G, H, I, J, K)>::spec_encoding((m.4, m.5, m.6, m.7, m.8, m.9, m.10));
        let ghost s5 = <(F, G, H, I, J, K)>::spec_encoding((m.5, m.6, m.7, m.8, m.9, m.10));
        let ghost s6 = <(G, H, I, J, K)>::spec_encoding((m.6, m.7, m.8, m.9, m.10));
        let ghost s7 = <(H, I, J, K)>::spec_encoding((m.7, m.8, m.9, m.10));
        let ghost s8 = <(I, J, K)>::spec_encoding((m.8, m.9, m.10));
        let ghost s9 = <(J, K)>::spec_encoding((m.9, m.10));
        let ghost s10 = e10;
        let ghost a0 = Seq::<u8>::empty();
        proof {
            assert(a0 + s0 =~= s0);
            assert(b.take(o) + a0 + b.skip(o) =~= b);
        }
        encode_next(&self.0, sink, Ghost(b), Ghost(o), Ghost(a0));
        let ghost a1 = a0 + e0;
        proof {
            assert(s0 == e0 + s1);
            assert(a1 + s1 =~= a0 + s0);
        }
        encode_next(&self.1, sink, Ghost(b), Ghost(o), Ghost(a1));
        let ghost a2 = a1 + e1;
        proof {
            assert(s1 == e1 + s2);
            assert(a2 + s2 =~= a1 + s1);
        }
        encode_next(&self.2, sink, Ghost(b), Ghost(o), Ghost(a2));
        let ghost a3 = a2 + e2;
        proof {
            assert(s2 == e2 + s3);
            assert(a3 + s3 =~= a2 + s2);
        }
        encode_next(&self.3, sink, Ghost(b), Ghost(o), Ghost(a3));
        let ghost a4 = a3 + e3;
        proof {
            assert(s3 == e3 + s4);
            assert(a4 + s4 =~= a3 + s3);
        }
        encode_next(&self.4, sink, Ghost(b), Ghost(o), Ghost(a4));
        let ghost a5 = a4 + e4;
        proof {
            assert(s4 == e4 + s5);
            assert(a5 + s5 =~= a4 + s4);
        }
        encode_next(&self.5, sink, Ghost(b), Ghost(o), Ghost(a5));
        let ghost a6 = a5 + e5;
        proof {
            assert(s5 == e5 + s6);
            assert(a6 + s6 =~= a5 + s5);
        }
        encode_next(&self.6, sink, Ghost(b), Ghost(o), Ghost(a6));
        let ghost a7 = a6 + e6;
        proof {
            assert(s6 == e6 + s7);
            assert(a7 + s7 =~= a6 + s6);
        }
        encode_next(&self.7, sink, Ghost(b), Ghost(o), Ghost(a7));
        let ghost a8 = a7 + e7;
        proof {
            assert(s7 == e7 + s8);
            assert(a8 + s8 =~= a7 + s7);
        }
        encode_next(&self.8, sink, Ghost(b), Ghost(o), Ghost(a8));
        let ghost a9 = a8 + e8;
        proof {
            assert(s8 == e8 + s9);
            assert(a9 + s9 =~= a8 + s8);
        }
        encode_next(&self.9, sink, Ghost(b), Ghost(o), Ghost(a9));
        let ghost a10 = a9 + e9;
        proof {
            assert(s9 == e9 + s10);
            assert(a10 + s10 =~= a9 + s9);
        }
        encode_next(&self.10, sink, Ghost(b), Ghost(o), Ghost(a10));
        let ghost a11 = a10 + e10;
    }

    fn decode(source: &mut Source) -> (r: Result<Self, CanonError>) {
        let ghost rest = source.remaining();
        let a = match A::decode(source) {
            Ok(a) => a,
            Err(e) => return Err(e),
        };
        let others = match <(B, C, D, E, F, G, H, I, J, K)>::decode(source) {
            Ok(t) => t,
            Err(e) => return Err(e),
        };
        proof {
            if let Decoded::Value(_, n) = A::spec_decoding(rest) {
                if let Decoded::Value(_, m) = <(B, C, D, E, F, G, H, I, J, K)>::spec_decoding(rest.skip(n as int)) {
                    assert(rest.skip(n as int).skip(m as int) =~= rest.skip((n + m) as int));
                }
            }
        }
        let (b_, c_, d_, e_, f_, g_, h_, i_, j_, k_) = others;
        Ok((a, b_, c_, d_, e_, f_, g_, h_, i_, j_, k_))
    }

    fn encoded_len(&self) -> (n: usize) {
        self.0.encoded_len() + self.1.encoded_len() + self.2.encoded_len() + self.3.encoded_len() + self.4.encoded_len() + self.5.encoded_len() + self.6.encoded_len() + self.7.encoded_len() + self.8.encoded_len() + self.9.encoded_len() + self.10.encoded_len()
    }

    proof fn lemma_decode_encoding(&self, rest: Seq<u8>) {
        lemma_decode_pair(self.0, (self.1, self.2, self.3, self.4, self.5, self.6, self.7, self.8, self.9, self.10), rest);
    }
}


impl<A: Canon, B: Canon, C: Canon, D: Canon, E: Canon, F: Canon, G: Canon, H: Canon, I: Canon, J: Canon, K: Canon, L: Canon> Canon for (A, B, C, D, E, F, G, H, I, J, K, L) {
    type Model = (A::Model, B::Model, C::Model, D::Model, E::Model, F::Model, G::Model, H::Model, I::Model, J::Model, K::Model, L::Model);

    open spec fn model(&self) -> (A::Model, B::Model, C::Model, D::Model, E::Model, F::Model, G::Model, H::Model, I::Model, J::Model, K::Model, L::Model) {
        (self.0.model(), self.1.model(), self.2.model(), self.3.model(), self.4.model(), self.5.model(), self.6.model(), self.7.model(), self.8.model(), self.9.model(), self.10.model(), self.11.model())
    }

    open spec fn can_encode(&self) -> bool {
        self.0.can_encode() && self.1.can_encode() && self.2.can_encode() && self.3.can_encode() && self.4.can_encode() && self.5.can_encode() && self.6.can_encode() && self.7.can_encode() && self.8.can_encode() && self.9.can_encode() && self.10.can_encode() && self.11.can_encode()
    }

    /// The first element, then the others as a tuple.
    open spec fn spec_encoding(m: (A::Model, B::Model, C::Model, D::Model, E::Model, F::Model, G::Model, H::Model, I::Model, J::Model, K::Model, L::Model)) -> Seq<u8> {
        A::spec_encoding(m.0) + <(B, C, D, E, F, G, H, I, J, K, L)>::spec_encoding((m.1, m.2, m.3, m.4, m.5, m.6, m.7, m.8, m.9, m.10, m.11))
    }

    open spec fn spec_decoding(bytes: Seq<u8>) -> Decoded<(A::Model, B::Model, C::Model, D::Model, E::Model, F::Model, G::Model, H::Model, I::Model, J::Model, K::Model, L::Model)> {
        decode_pair::<A, (B, C, D, E, F, G, H, I, J, K, L)>(bytes).map(|p: (A::Model, (B::Model, C::Model, D::Model, E::Model, F::Model, G::Model, H::Model, I::Model, J::Model, K::Model, L::Model))| (p.0, p.1.0, p.1.1, p.1.2, p.1.3, p.1.4, p.1.5, p.1.6, p.1.7, p.1.8, p.1.9, p.1.10))
    }

    #[verifier::rlimit(100)]
    #[verifier::spinoff_prover]
    fn encode(&self, sink: &mut Sink) {
        let ghost b = sink.bytes@;
        let ghost o = sink.offset as int;
        let ghost m = self.model();
        let ghost e0 = A::spec_encoding(self.0.model());
        let ghost e1 = B::spec_encoding(self.1.model());
        let ghost e2 = C::spec_encoding(self.2.model());
        let ghost e3 = D::spec_encoding(self.3.model());
        let ghost e4 = E::spec_encoding(self.4.model());
        let ghost e5 = F::spec_encoding(self.5.model());
        let ghost e6 = G::spec_encoding(self.6.model());
        let ghost e7 = H::spec_encoding(self.7.model());
        let ghost e8 = I::spec_encoding(self.8.model());
        let ghost e9 = J::spec_encoding(self.9.model());
        let ghost e10 = K::spec_encoding(self.10.model());
        let ghost e11 = L::spec_encoding(self.11.model());
        let ghost s0 = <(A, B, C, D, E, F, G, H, I, J, K, L)>::spec_encoding((m.0, m.1, m.2, m.3, m.4, m.5, m.6, m.7, m.8, m.9, m.10, m.11));
        let ghost s1 = <(B, C, D, E, F, G, H, I, J, K, L)>::spec_encoding((m.1, m.2, m.3, m.4, m.5, m.6, m.7, m.8, m.9, m.10, m.11));
        let ghost s2 = <(C, D, E, F, G, H, I, J, K, L)>::spec_encoding((m.2, m.3, m.4, m.5, m.6, m.7, m.8, m.9, m.10, m.11));
        let ghost s3 = <(D, E, F, G, H, I, J, K, L)>::spec_encoding((m.3, m.4, m.5, m.6, m.7, m.8, m.9, m.10, m.11));
        let ghost s4 = <(E, F, G, H, I, J, K, L)>::spec_encoding((m.4, m.5, m.6, m.7, m.8, m.9, m.10, m.11));
        let ghost s5 = <(F, G, H, I, J, K, L)>::spec_encoding((m.5, m.6, m.7, m.8, m.9, m.10, m.11));
        let ghost s6 = <(G, H, I, J, K, L)>::spec_encoding((m.6, m.7, m.8, m.9, m.10, m.11));
        let ghost s7 = <(H, I, J, K, L)>::spec_encoding((m.7, m.8, m.9, m.10, m.11));
        let ghost s8 = <(I, J, K, L)>::spec_encoding((m.8, m.9, m.10, m.11));
        let ghost s9 = <(J, K, L)>::spec_encoding((m.9, m.10, m.11));
        let ghost s10 = <(K, L)>::spec_encoding((m.10, m.11));
        let ghost s11 = e11;
        let ghost a0 = Seq::<u8>::empty();
        proof {
            assert(a0 + s0 =~= s0);
            assert(b.take(o) + a0 + b.skip(o) =~= b);
        }
        encode_next(&self.0, sink, Ghost(b), Ghost(o), Ghost(a0));
        let ghost a1 = a0 + e0;
        proof {
            assert(s0 == e0 + s1);
            assert(a1 + s1 =~= a0 + s0);
        }
        encode_next(&self.1, sink, Ghost(b), Ghost(o), Ghost(a1));
        let ghost a2 = a1 + e1;
        proof {
            assert(s1 == e1 + s2);
            assert(a2 + s2 =~= a1 + s1);
        }
        encode_next(&self.2, sink, Ghost(b), Ghost(o), Ghost(a2));
        let ghost a3 = a2 + e2;
        proof {
            assert(s2 == e2 + s3);
            assert(a3 + s3 =~= a2 + s2);
        }
        encode_next(&self.3, sink, Ghost(b), Ghost(o), Ghost(a3));
        let ghost a4 = a3 + e3;
        proof {
            assert(s3 == e3 + s4);
            assert(a4 + s4 =~= a3 + s3);
        }
        encode_next(&self.4, sink, Ghost(b), Ghost(o), Ghost(a4));
        let ghost a5 = a4 + e4;
        proof {
            assert(s4 == e4 + s5);
            assert(a5 + s5 =~= a4 + s4);
        }
        encode_next(&self.5, sink, Ghost(b), Ghost(o), Ghost(a5));
        let ghost a6 = a5 + e5;
        proof {
            assert(s5 == e5 + s6);
            assert(a6 + s6 =~= a5 + s5);
        }
        encode_next(&self.6, sink, Ghost(b), Ghost(o), Ghost(a6));
        let ghost a7 = a6 + e6;
        proof {
            assert(s6 == e6 + s7);
            assert(a7 + s7 =~= a6 + s6);
        }
        encode_next(&self.7, sink, Ghost(b), Ghost(o), Ghost(a7));
        let ghost a8 = a7 + e7;
        proof {
            assert(s7 == e7 + s8);
            assert(a8 + s8 =~= a7 + s7);
        }
        encode_next(&self.8, sink, Ghost(b), Ghost(o), Ghost(a8));
        let ghost a9 = a8 + e8;
        proof {
            assert(s8 == e8 + s9);
            assert(a9 + s9 =~= a8 + s8);
        }
        encode_next(&self.9, sink, Ghost(b), Ghost(o), Ghost(a9));
        let ghost a10 = a9 + e9;
        proof {
            assert(s9 == e9 + s10);
            assert(a10 + s10 =~= a9 + s9);
        }
        encode_next(&self.10, sink, Ghost(b), Ghost(o), Ghost(a10));
        let ghost a11 = a10 + e10;
        proof {
            assert(s10 == e10 + s11);
            assert(a11 + s11 =~= a10 + s10);
        }
        encode_next(&self.11, sink, Ghost(b), Ghost(o), Ghost(a11));
        let ghost a12 = a11 + e11;
    }

    fn decode(source: &mut Source) -> (r: Result<Self, CanonError>) {
        let ghost rest = source.remaining();
        let a = match A::decode(source) {
            Ok(a) => a,
            Err(e) => return Err(e),
        };
        let others = match <(B, C, D, E, F, G, H, I, J, K, L)>::decode(source) {
            Ok(t) => t,
            Err(e) => return Err(e),
        };
        proof {
            if let Decoded::Value(_, n) = A::spec_decoding(rest) {
                if let Decoded::Value(_, m) = <(B, C, D, E, F, G, H, I, J, K, L)>::spec_decoding(rest.skip(n as int)) {
                    assert(rest.skip(n as int).skip(m as int) =~= rest.skip((n + m) as int));
                }
            }
        }
        let (b_, c_, d_, e_, f_, g_, h_, i_, j_, k_, l_) = others;
        Ok((a, b_, c_, d_, e_, f_, g_, h_, i_, j_, k_, l_))
    }

    fn encoded_len(&self) -> (n: usize) {
        self.0.encoded_len() + self.1.encoded_len() + self.2.encoded_len() + self.3.encoded_len() + self.4.encoded_len() + self.5.encoded_len() + self.6.encoded_len() + self.7.encoded_len() + self.8.encoded_len() + self.9.encoded_len() + self.10.encoded_len() + self.11.encoded_len()
    }

    proof fn lemma_decode_encoding(&self, rest: Seq<u8>) {
        lemma_decode_pair(self.0, (self.1, self.2, self.3, self.4, self.5, self.6, self.7, self.8, self.9, self.10, self.11), rest);
    }
}


impl<A: Canon, B: Canon, C: Canon, D: Canon, E: Canon, F: Canon, G: Canon, H: Canon, I: Canon, J: Canon, K: Canon, L: Canon, M: Canon> Canon for (A, B, C, D, E, F, G, H, I, J, K, L, M) {
    type Model = (A::Model, B::Model, C::Model, D::Model, E::Model, F::Model, G::Model, H::Model, I::Model, J::Model, K::Model, L::Model, M::Model);

    open spec fn model(&self) -> (A::Model, B::Model, C::Model, D::Model, E::Model, F::Model, G::Model, H::Model, I::Model, J::Model, K::Model, L::Model, M::Model) {
        (self.0.model(), self.1.model(), self.2.model(), self.3.model(), self.4.model(), self.5.model(), self.6.model(), self.7.model(), self.8.model(), self.9.model(), self.10.model(), self.11.model(), self.12.model())
    }

    open spec fn can_encode(&self) -> bool {
        self.0.can_encode() && self.1.can_encode() && self.2.can_encode() && self.3.can_encode() && self.4.can_encode() && self.5.can_encode() && self.6.can_encode() && self.7.can_encode() && self.8.can_encode() && self.9.can_encode() && self.10.can_encode() && self.11.can_encode() && self.12.can_encode()
    }

    /// The first element, then the others as a tuple.
    open spec fn spec_encoding(m: (A::Model, B::Model, C::Model, D::Model, E::Model, F::Model, G::Model, H::Model, I::Model, J::Model, K::Model, L::Model, M::Model)) -> Seq<u8> {
        A::spec_encoding(m.0) + <(B, C, D, E, F, G, H, I, J, K, L, M)>::spec_encoding((m.1, m.2, m.3, m.4, m.5, m.6, m.7, m.8, m.9, m.10, m.11, m.12))
    }

    open spec fn spec_decoding(bytes: Seq<u8>) -> Decoded<(A::Model, B::Model, C::Model, D::Model, E::Model, F::Model, G::Model, H::Model, I::Model, J::Model, K::Model, L::Model, M::Model)> {
        decode_pair::<A, (B, C, D, E, F, G, H, I, J, K, L, M)>(bytes).map(|p: (A::Model, (B::Model, C::Model, D::Model, E::Model, F::Model, G::Model, H::Model, I::Model, J::Model, K::Model, L::Model, M::Model))| (p.0, p.1.0, p.1.1, p.1.2, p.1.3, p.1.4, p.1.5, p.1.6, p.1.7, p.1.8, p.1.9, p.1.10, p.1.11))
    }

    #[verifier::rlimit(100)]
    #[verifier::spinoff_prover]
    fn encode(&self, sink: &mut Sink) {
        let ghost b = sink.bytes@;
        let ghost o = sink.offset as int;
        let ghost m = self.model();
        let ghost e0 = A::spec_encoding(self.0.model());
        let ghost e1 = B::spec_encoding(self.1.model());
        let ghost e2 = C::spec_encoding(self.2.model());
        let ghost e3 = D::spec_encoding(self.3.model());
        let ghost e4 = E::spec_encoding(self.4.model());
        let ghost e5 = F::spec_encoding(self.5.model());
        let ghost e6 = G::spec_encoding(self.6.model());
        let ghost e7 = H::spec_encoding(self.7.model());
        let ghost e8 = I::spec_encoding(self.8.model());
        let ghost e9 = J::spec_encoding(self.9.model());
        let ghost e10 = K::spec_encoding(self.10.model());
        let ghost e11 = L::spec_encoding(self.11.model());
        let ghost e12 = M::spec_encoding(self.12.model());
        let ghost s0 = <(A, B, C, D, E, F, G, H, I, J, K, L, M)>::spec_encoding((m.0, m.1, m.2, m.3, m.4, m.5, m.6, m.7, m.8, m.9, m.10, m.11, m.12));
        let ghost s1 = <(B, C, D, E, F, G, H, I, J, K, L, M)>::spec_encoding((m.1, m.2, m.3, m.4, m.5, m.6, m.7, m.8, m.9, m.10, m.11, m.12));
        let ghost s2 = <(C, D, E, F, G, H, I, J, K, L, M)>::spec_encoding((m.2, m.3, m.4, m.5, m.6, m.7, m.8, m.9, m.10, m.11, m.12));
        let ghost s3 = <(D, E, F, G, H, I, J, K, L, M)>::spec_encoding((m.3, m.4, m.5, m.6, m.7, m.8, m.9, m.10, m.11, m.12));
        let ghost s4 = <(E, F, G, H, I, J, K, L, M)>::spec_encoding((m.4, m.5, m.6, m.7, m.8, m.9, m.10, m.11, m.12));
        let ghost s5 = <(F, G, H, I, J, K, L, M)>::spec_encoding((m.5, m.6, m.7, m.8, m.9, m.10, m.11, m.12));
        let ghost s6 = <(G, H, I, J, K, L, M)>::spec_encoding((m.6, m.7, m.8, m.9, m.10, m.11, m.12));
        let ghost s7 = <(H, I, J, K, L, M)>::spec_encoding((m.7, m.8, m.9, m.10, m.11, m.12));
        let ghost s8 = <(I, J, K, L, M)>::spec_encoding((m.8, m.9, m.10, m.11, m.12));
        let ghost s9 = <(J, K, L, M)>::spec_encoding((m.9, m.10, m.11, m.12));
        let ghost s10 = <(K, L, M)>::spec_encoding((m.10, m.11, m.12));
        let ghost s11 = <(L, M)>::spec_encoding((m.11, m.12));
        let ghost s12 = e12;
        let ghost a0 = Seq::<u8>::empty();
        proof {
            assert(a0 + s0 =~= s0);
            assert(b.take(o) + a0 + b.skip(o) =~= b);
        }
        encode_next(&self.0, sink, Ghost(b), Ghost(o), Ghost(a0));
        let ghost a1 = a0 + e0;
        proof {
            assert(s0 == e0 + s1);
            assert(a1 + s1 =~= a0 + s0);
        }
        encode_next(&self.1, sink, Ghost(b), Ghost(o), Ghost(a1));
        let ghost a2 = a1 + e1;
        proof {
            assert(s1 == e1 + s2);
            assert(a2 + s2 =~= a1 + s1);
        }
        encode_next(&self.2, sink, Ghost(b), Ghost(o), Ghost(a2));
        let ghost a3 = a2 + e2;
        proof {
            assert(s2 == e2 + s3);
            assert(a3 + s3 =~= a2 + s2);
        }
        encode_next(&self.3, sink, Ghost(b), Ghost(o), Ghost(a3));
        let ghost a4 = a3 + e3;
        proof {
            assert(s3 == e3 + s4);
            assert(a4 + s4 =~= a3 + s3);
        }
        encode_next(&self.4, sink, Ghost(b), Ghost(o), Ghost(a4));
        let ghost a5 = a4 + e4;
        proof {
            assert(s4 == e4 + s5);
            assert(a5 + s5 =~= a4 + s4);
        }
        encode_next(&self.5, sink, Ghost(b), Ghost(o), Ghost(a5));
        let ghost a6 = a5 + e5;
        proof {
            assert(s5 == e5 + s6);
            assert(a6 + s6 =~= a5 + s5);
        }
        encode_next(&self.6, sink, Ghost(b), Ghost(o), Ghost(a6));
        let ghost a7 = a6 + e6;
        proof {
            assert(s6 == e6 + s7);
            assert(a7 + s7 =~= a6 + s6);
        }
        encode_next(&self.7, sink, Ghost(b), Ghost(o), Ghost(a7));
        let ghost a8 = a7 + e7;
        proof {
            assert(s7 == e7 + s8);
            assert(a8 + s8 =~= a7 + s7);
        }
        encode_next(&self.8, sink, Ghost(b), Ghost(o), Ghost(a8));
        let ghost a9 = a8 + e8;
        proof {
            assert(s8 == e8 + s9);
            assert(a9 + s9 =~= a8 + s8);
        }
        encode_next(&self.9, sink, Ghost(b), Ghost(o), Ghost(a9));
        let ghost a10 = a9 + e9;
        proof {
            assert(s9 == e9 + s10);
            assert(a10 + s10 =~= a9 + s9);
        }
        encode_next(&self.10, sink, Ghost(b), Ghost(o), Ghost(a10));
        let ghost a11 = a10 + e10;
        proof {
            assert(s10 == e10 + s11);
            assert(a11 + s11 =~= a10 + s10);
        }
        encode_next(&self.11, sink, Ghost(b), Ghost(o), Ghost(a11));
        let ghost a12 = a11 + e11;
        proof {
            assert(s11 == e11 + s12);
            assert(a12 + s12 =~= a11 + s11);
        }
        encode_next(&self.12, sink, Ghost(b), Ghost(o), Ghost(a12));
        let ghost a13 = a12 + e12;
    }

    fn decode(source: &mut Source) -> (r: Result<Self, CanonError>) {
        let ghost rest = source.remaining();
        let a = match A::decode(source) {
            Ok(a) => a,
            Err(e) => return Err(e),
        };
        let others = match <(B, C, D, E, F, G, H, I, J, K, L, M)>::decode(source) {
            Ok(t) => t,
            Err(e) => return Err(e),
        };
        proof {
            if let Decoded::Value(_, n) = A::spec_decoding(rest) {
                if let Decoded::Value(_, m) = <(B, C, D, E, F, G, H, I, J, K, L, M)>::spec_decoding(rest.skip(n as int)) {
                    assert(rest.skip(n as int).skip(m as int) =~= rest.skip((n + m) as int));
                }
            }
        }
        let (b_, c_, d_, e_, f_, g_, h_, i_, j_, k_, l_, m_) = others;
        Ok((a, b_, c_, d_, e_, f_, g_, h_, i_, j_, k_, l_, m_))
    }

    fn encoded_len(&self) -> (n: usize) {
        self.0.encoded_len() + self.1.encoded_len() + self.2.encoded_len() + self.3.encoded_len() + self.4.encoded_len() + self.5.encoded_len() + self.6.encoded_len() + self.7.encoded_len() + self.8.encoded_len() + self.9.encoded_len() + self.10.encoded_len() + self.11.encoded_len() + self.12.encoded_len()
    }

    proof fn lemma_decode_encoding(&self, rest: Seq<u8>) {
        lemma_decode_pair(self.0, (self.1, self.2, self.3, self.4, self.5, self.6, self.7, self.8, self.9, self.10, self.11, self.12), rest);
    }
}


impl<A: Canon, B: Canon, C: Canon, D: Canon, E: Canon, F: Canon, G: Canon, H: Canon, I: Canon, J: Canon, K: Canon, L: Canon, M: Canon, N: Canon> Canon for (A, B, C, D, E, F, G, H, I, J, K, L, M, N) {
    type Model = (A::Model, B::Model, C::Model, D::Model, E::Model, F::Model, G::Model, H::Model, I::Model, J::Model, K::Model, L::Model, M::Model, N::Model);

    open spec fn model(&self) -> (A::Model, B::Model, C::Model, D::Model, E::Model, F::Model, G::Model, H::Model, I::Model, J::Model, K::Model, L::Model, M::Model, N::Model) {
        (self.0.model(), self.1.model(), self.2.model(), self.3.model(), self.4.model(), self.5.model(), self.6.model(), self.7.model(), self.8.model(), self.9.model(), self.10.model(), self.11.model(), self.12.model(), self.13.model())
    }

    open spec fn can_encode(&self) -> bool {
        self.0.can_encode() && self.1.can_encode() && self.2.can_encode() && self.3.can_encode() && self.4.can_encode() && self.5.can_encode() && self.6.can_encode() && self.7.can_encode() && self.8.can_encode() && self.9.can_encode() && self.10.can_encode() && self.11.can_encode() && self.12.can_encode() && self.13.can_encode()
    }

    /// The first element, then the others as a tuple.
    open spec fn spec_encoding(m: (A::Model, B::Model, C::Model, D::Model, E::Model, F::Model, G::Model, H::Model, I::Model, J::Model, K::Model, L::Model, M::Model, N::Model)) -> Seq<u8> {
        A::spec_encoding(m.0) + <(B, C, D, E, F, G, H, I, J, K, L, M, N)>::spec_encoding((m.1, m.2, m.3, m.4, m.5, m.6, m.7, m.8, m.9, m.10, m.11, m.12, m.13))
    }

    open spec fn spec_decoding(bytes: Seq<u8>) -> Decoded<(A::Model, B::Model, C::Model, D::Model, E::Model, F::Model, G::Model, H::Model, I::Model, J::Model, K::Model, L::Model, M::Model, N::Model)> {
        decode_pair::<A, (B, C, D, E, F, G, H, I, J, K, L, M, N)>(bytes).map(|p: (A::Model, (B::Model, C::Model, D::Model, E::Model, F::Model, G::Model, H::Model, I::Model, J::Model, K::Model, L::Model, M::Model, N::Model))| (p.0, p.1.0, p.1.1, p.1.2, p.1.3, p.1.4, p.1.5, p.1.6, p.1.7, p.1.8, p.1.9, p.1.10, p.1.11, p.1.12))
    }

    #[verifier::rlimit(100)]
    #[verifier::spinoff_prover]
    fn encode(&self, sink: &mut Sink) {
        let ghost b = sink.bytes@;
        let ghost o = sink.offset as int;
        let ghost m = self.model();
        let ghost e0 = A::spec_encoding(self.0.model());
        let ghost e1 = B::spec_encoding(self.1.model());
        let ghost e2 = C::spec_encoding(self.2.model());
        let ghost e3 = D::spec_encoding(self.3.model());
        let ghost e4 = E::spec_encoding(self.4.model());
        let ghost e5 = F::spec_encoding(self.5.model());
        let ghost e6 = G::spec_encoding(self.6.model());
        let ghost e7 = H::spec_encoding(self.7.model());
        let ghost e8 = I::spec_encoding(self.8.model());
        let ghost e9 = J::spec_encoding(self.9.model());
        let ghost e10 = K::spec_encoding(self.10.model());
        let ghost e11 = L::spec_encoding(self.11.model());
        let ghost e12 = M::spec_encoding(self.12.model());
        let ghost e13 = N::spec_encoding(self.13.model());
        let ghost s0 = <(A, B, C, D, E, F, G, H, I, J, K, L, M, N)>::spec_encoding((m.0, m.1, m.2, m.3, m.4, m.5, m.6, m.7, m.8, m.9, m.10, m.11, m.12, m.13));
        let ghost s1 = <(B, C, D, E, F, G, H, I, J, K, L, M, N)>::spec_encoding((m.1, m.2, m.3, m.4, m.5, m.6, m.7, m.8, m.9, m.10, m.11, m.12, m.13));
        let ghost s2 = <(C, D, E, F, G, H, I, J, K, L, M, N)>::spec_encoding((m.2, m.3, m.4, m.5, m.6, m.7, m.8, m.9, m.10, m.11, m.12, m.13));
        let ghost s3 = <(D, E, F, G, H, I, J, K, L, M, N)>::spec_encoding((m.3, m.4, m.5, m.6, m.7, m.8, m.9, m.10, m.11, m.12, m.13));
        let ghost s4 = <(E, F, G, H, I, J, K, L, M, N)>::spec_encoding((m.4, m.5, m.6, m.7, m.8, m.9, m.10, m.11, m.12, m.13));
        let ghost s5 = <(F, G, H, I, J, K, L, M, N)>::spec_encoding((m.5, m.6, m.7, m.8, m.9, m.10, m.11, m.12, m.13));
        let ghost s6 = <(G, H, I, J, K, L, M, N)>::spec_encoding((m.6, m.7, m.8, m.9, m.10, m.11, m.12, m.13));
        let ghost s7 = <(H, I, J, K, L, M, N)>::spec_encoding((m.7, m.8, m.9, m.10, m.11, m.12, m.13));
        let ghost s8 = <(I, J, K, L, M, N)>::spec_encoding((m.8, m.9, m.10, m.11, m.12, m.13));
        let ghost s9 = <(J, K, L, M, N)>::spec_encoding((m.9, m.10, m.11, m.12, m.13));
        let ghost s10 = <(K, L, M, N)>::spec_encoding((m.10, m.11, m.12, m.13));
        let ghost s11 = <(L, M, N)>::spec_encoding((m.11, m.12, m.13));
        let ghost s12 = <(M, N)>::spec_encoding((m.12, m.13));
        let ghost s13 = e13;
        let ghost a0 = Seq::<u8>::empty();
        proof {
            assert(a0 + s0 =~= s0);
            assert(b.take(o) + a0 + b.skip(o) =~= b);
        }
        encode_next(&self.0, sink, Ghost(b), Ghost(o), Ghost(a0));
        let ghost a1 = a0 + e0;
        proof {
            assert(s0 == e0 + s1);
            assert(a1 + s1 =~= a0 + s0);
        }
        encode_next(&self.1, sink, Ghost(b), Ghost(o), Ghost(a1));
        let ghost a2 = a1 + e1;
        proof {
            assert(s1 == e1 + s2);
            assert(a2 + s2 =~= a1 + s1);
        }
        encode_next(&self.2, sink, Ghost(b), Ghost(o), Ghost(a2));
        let ghost a3 = a2 + e2;
        proof {
            assert(s2 == e2 + s3);
            assert(a3 + s3 =~= a2 + s2);
        }
        encode_next(&self.3, sink, Ghost(b), Ghost(o), Ghost(a3));
        let ghost a4 = a3 + e3;
        proof {
            assert(s3 == e3 + s4);
            assert(a4 + s4 =~= a3 + s3);
        }
        encode_next(&self.4, sink, Ghost(b), Ghost(o), Ghost(a4));
        let ghost a5 = a4 + e4;
        proof {
            assert(s4 == e4 + s5);
            assert(a5 + s5 =~= a4 + s4);
        }
        encode_next(&self.5, sink, Ghost(b), Ghost(o), Ghost(a5));
        let ghost a6 = a5 + e5;
        proof {
            assert(s5 == e5 + s6);
            assert(a6 + s6 =~= a5 + s5);
        }
        encode_next(&self.6, sink, Ghost(b), Ghost(o), Ghost(a6));
        let ghost a7 = a6 + e6;
        proof {
            assert(s6 == e6 + s7);
            assert(a7 + s7 =~= a6 + s6);
        }
        encode_next(&self.7, sink, Ghost(b), Ghost(o), Ghost(a7));
        let ghost a8 = a7 + e7;
        proof {
            assert(s7 == e7 + s8);
            assert(a8 + s8 =~= a7 + s7);
        }
        encode_next(&self.8, sink, Ghost(b), Ghost(o), Ghost(a8));
        let ghost a9 = a8 + e8;
        proof {
            assert(s8 == e8 + s9);
            assert(a9 + s9 =~= a8 + s8);
        }
        encode_next(&self.9, sink, Ghost(b), Ghost(o), Ghost(a9));
        let ghost a10 = a9 + e9;
        proof {
            assert(s9 == e9 + s10);
            assert(a10 + s10 =~= a9 + s9);
        }
        encode_next(&self.10, sink, Ghost(b), Ghost(o), Ghost(a10));
        let ghost a11 = a10 + e10;
        proof {
            assert(s10 == e10 + s11);
            assert(a11 + s11 =~= a10 + s10);
        }
        encode_next(&self.11, sink, Ghost(b), Ghost(o), Ghost(a11));
        let ghost a12 = a11 + e11;
        proof {
            assert(s11 == e11 + s12);
            assert(a12 + s12 =~= a11 + s11);
        }
        encode_next(&self.12, sink, Ghost(b), Ghost(o), Ghost(a12));
        let ghost a13 = a12 + e12;
        proof {
            assert(s12 == e12 + s13);
            assert(a13 + s13 =~= a12 + s12);
        }
        encode_next(&self.13, sink, Ghost(b), Ghost(o), Ghost(a13));
        let ghost a14 = a13 + e13;
    }

    fn decode(source: &mut Source) -> (r: Result<Self, CanonError>) {
        let ghost rest = source.remaining();
        let a = match A::decode(source) {
            Ok(a) => a,
            Err(e) => return Err(e),
        };
        let others = match <(B, C, D, E, F, G, H, I, J, K, L, M, N)>::decode(source) {
            Ok(t) => t,
            Err(e) => return Err(e),
        };
        proof {
            if let Decoded::Value(_, n) = A::spec_decoding(rest) {
                if let Decoded::Value(_, m) = <(B, C, D, E, F, G, H, I, J, K, L, M, N)>::spec_decoding(rest.skip(n as int)) {
                    assert(rest.skip(n as int).skip(m as int) =~= rest.skip((n + m) as int));
                }
            }
        }
        let (b_, c_, d_, e_, f_, g_, h_, i_, j_, k_, l_, m_, n_) = others;
        Ok((a, b_, c_, d_, e_, f_, g_, h_, i_, j_, k_, l_, m_, n_))
    }

    fn encoded_len(&self) -> (n: usize) {
        self.0.encoded_len() + self.1.encoded_len() + self.2.encoded_len() + self.3.encoded_len() + self.4.encoded_len() + self.5.encoded_len() + self.6.encoded_len() + self.7.encoded_len() + self.8.encoded_len() + self.9.encoded_len() + self.10.encoded_len() + self.11.encoded_len() + self.12.encoded_len() + self.13.encoded_len()
    }

    proof fn lemma_decode_encoding(&self, rest: Seq<u8>) {
        lemma_decode_pair(self.0, (self.1, self.2, self.3, self.4, self.5, self.6, self.7, self.8, self.9, self.10, self.11, self.12, self.13), rest);
    }
}


impl<A: Canon, B: Canon, C: Canon, D: Canon, E: Canon, F: Canon, G: Canon, H: Canon, I: Canon, J: Canon, K: Canon, L: Canon, M: Canon, N: Canon, O: Canon> Canon for (A, B, C, D, E, F, G, H, I, J, K, L, M, N, O) {
    type Model = (A::Model, B::Model, C::Model, D::Model, E::Model, F::Model, G::Model, H::Model, I::Model, J::Model, K::Model, L::Model, M::Model, N::Model, O::Model);

    open spec fn model(&self) -> (A::Model, B::Model, C::Model, D::Model, E::Model, F::Model, G::Model, H::Model, I::Model, J::Model, K::Model, L::Model, M::Model, N::Model, O::Model) {
        (self.0.model(), self.1.model(), self.2.model(), self.3.model(), self.4.model(), self.5.model(), self.6.model(), self.7.model(), self.8.model(), self.9.model(), self.10.model(), self.11.model(), self.12.model(), self.13.model(), self.14.model())
    }

    open spec fn can_encode(&self) -> bool {
        self.0.can_encode() && self.1.can_encode() && self.2.can_encode() && self.3.can_encode() && self.4.can_encode() && self.5.can_encode() && self.6.can_encode() && self.7.can_encode() && self.8.can_encode() && self.9.can_encode() && self.10.can_encode() && self.11.can_encode() && self.12.can_encode() && self.13.can_encode() && self.14.can_encode()
    }

    /// The first element, then the others as a tuple.
    open spec fn spec_encoding(m: (A::Model, B::Model, C::Model, D::Model, E::Model, F::Model, G::Model, H::Model, I::Model, J::Model, K::Model, L::Model, M::Model, N::Model, O::Model)) -> Seq<u8> {
        A::spec_encoding(m.0) + <(B, C, D, E, F, G, H, I, J, K, L, M, N, O)>::spec_encoding((m.1, m.2, m.3, m.4, m.5, m.6, m.7, m.8, m.9, m.10, m.11, m.12, m.13, m.14))
    }

    open spec fn spec_decoding(bytes: Seq<u8>) -> Decoded<(A::Model, B::Model, C::Model, D::Model, E::Model, F::Model, G::Model, H::Model, I::Model, J::Model, K::Model, L::Model, M::Model, N::Model, O::Model)> {
        decode_pair::<A, (B, C, D, E, F, G, H, I, J, K, L, M, N, O)>(bytes).map(|p: (A::Model, (B::Model, C::Model, D::Model, E::Model, F::Model, G::Model, H::Model, I::Model, J::Model, K::Model, L::Model, M::Model, N::Model, O::Model))| (p.0, p.1.0, p.1.1, p.1.2, p.1.3, p.1.4, p.1.5, p.1.6, p.1.7, p.1.8, p.1.9, p.1.10, p.1.11, p.1.12, p.1.13))
    }

    #[verifier::rlimit(100)]
    #[verifier::spinoff_prover]
    fn encode(&self, sink: &mut Sink) {
        let ghost b = sink.bytes@;
        let ghost o = sink.offset as int;
        let ghost m = self.model();
        let ghost e0 = A::spec_encoding(self.0.model());
        let ghost e1 = B::spec_encoding(self.1.model());
        let ghost e2 = C::spec_encoding(self.2.model());
        let ghost e3 = D::spec_encoding(self.3.model());
        let ghost e4 = E::spec_encoding(self.4.model());
        let ghost e5 = F::spec_encoding(self.5.model());
        let ghost e6 = G::spec_encoding(self.6.model());
        let ghost e7 = H::spec_encoding(self.7.model());
        let ghost e8 = I::spec_encoding(self.8.model());
        let ghost e9 = J::spec_encoding(self.9.model());
        let ghost e10 = K::spec_encoding(self.10.model());
        let ghost e11 = L::spec_encoding(self.11.model());
        let ghost e12 = M::spec_encoding(self.12.model());
        let ghost e13 = N::spec_encoding(self.13.model());
        let ghost e14 = O::spec_encoding(self.14.model());
        let ghost s0 = <(A, B, C, D, E, F, G, H, I, J, K, L, M, N, O)>::spec_encoding((m.0, m.1, m.2, m.3, m.4, m.5, m.6, m.7, m.8, m.9, m.10, m.11, m.12, m.13, m.14));
        let ghost s1 = <(B, C, D, E, F, G, H, I, J, K, L, M, N, O)>::spec_encoding((m.1, m.2, m.3, m.4, m.5, m.6, m.7, m.8, m.9, m.10, m.11, m.12, m.13, m.14));
        let ghost s2 = <(C, D, E, F, G, H, I, J, K, L, M, N, O)>::spec_encoding((m.2, m.3, m.4, m.5, m.6, m.7, m.8, m.9, m.10, m.11, m.12, m.13, m.14));
        let ghost s3 = <(D, E, F, G, H, I, J, K, L, M, N, O)>::spec_encoding((m.3, m.4, m.5, m.6, m.7, m.8, m.9, m.10, m.11, m.12, m.13, m.14));
        let ghost s4 = <(E, F, G, H, I, J, K, L, M, N, O)>::spec_encoding((m.4, m.5, m.6, m.7, m.8, m.9, m.10, m.11, m.12, m.13, m.14));
        let ghost s5 = <(F, G, H, I, J, K, L, M, N, O)>::spec_encoding((m.5, m.6, m.7, m.8, m.9, m.10, m.11, m.12, m.13, m.14));
        let ghost s6 = <(G, H, I, J, K, L, M, N, O)>::spec_encoding((m.6, m.7, m.8, m.9, m.10, m.11, m.12, m.13, m.14));
        let ghost s7 = <(H, I, J, K, L, M, N, O)>::spec_encoding((m.7, m.8, m.9, m.10, m.11, m.12, m.13, m.14));
        let ghost s8 = <(I, J, K, L, M, N, O)>::spec_encoding((m.8, m.9, m.10, m.11, m.12, m.13, m.14));
        let ghost s9 = <(J, K, L, M, N, O)>::spec_encoding((m.9, m.10, m.11, m.12, m.13, m.14));
        let ghost s10 = <(K, L, M, N, O)>::spec_encoding((m.10, m.11, m.12, m.13, m.14));
        let ghost s11 = <(L, M, N, O)>::spec_encoding((m.11, m.12, m.13, m.14));
        let ghost s12 = <(M, N, O)>::spec_encoding((m.12, m.13, m.14));
        let ghost s13 = <(N, O)>::spec_encoding((m.13, m.14));
        let ghost s14 = e14;
        let ghost a0 = Seq::<u8>::empty();
        proof {
            assert(a0 + s0 =~= s0);
            assert(b.take(o) + a0 + b.skip(o) =~= b);
        }
        encode_next(&self.0, sink, Ghost(b), Ghost(o), Ghost(a0));
        let ghost a1 = a0 + e0;
        proof {
            assert(s0 == e0 + s1);
            assert(a1 + s1 =~= a0 + s0);
        }
        encode_next(&self.1, sink, Ghost(b), Ghost(o), Ghost(a1));
        let ghost a2 = a1 + e1;
        proof {
            assert(s1 == e1 + s2);
            assert(a2 + s2 =~= a1 + s1);
        }
        encode_next(&self.2, sink, Ghost(b), Ghost(o), Ghost(a2));
        let ghost a3 = a2 + e2;
        proof {
            assert(s2 == e2 + s3);
            assert(a3 + s3 =~= a2 + s2);
        }
        encode_next(&self.3, sink, Ghost(b), Ghost(o), Ghost(a3));
        let ghost a4 = a3 + e3;
        proof {
            assert(s3 == e3 + s4);
            assert(a4 + s4 =~= a3 + s3);
        }
        encode_next(&self.4, sink, Ghost(b), Ghost(o), Ghost(a4));
        let ghost a5 = a4 + e4;
        proof {
            assert(s4 == e4 + s5);
            assert(a5 + s5 =~= a4 + s4);
        }
        encode_next(&self.5, sink, Ghost(b), Ghost(o), Ghost(a5));
        let ghost a6 = a5 + e5;
        proof {
            assert(s5 == e5 + s6);
            assert(a6 + s6 =~= a5 + s5);
        }
        encode_next(&self.6, sink, Ghost(b), Ghost(o), Ghost(a6));
        let ghost a7 = a6 + e6;
        proof {
            assert(s6 == e6 + s7);
            assert(a7 + s7 =~= a6 + s6);
        }
        encode_next(&self.7, sink, Ghost(b), Ghost(o), Ghost(a7));
        let ghost a8 = a7 + e7;
        proof {
            assert(s7 == e7 + s8);
            assert(a8 + s8 =~= a7 + s7);
        }
        encode_next(&self.8, sink, Ghost(b), Ghost(o), Ghost(a8));
        let ghost a9 = a8 + e8;
        proof {
            assert(s8 == e8 + s9);
            assert(a9 + s9 =~= a8 + s8);
        }
        encode_next(&self.9, sink, Ghost(b), Ghost(o), Ghost(a9));
        let ghost a10 = a9 + e9;
        proof {
            assert(s9 == e9 + s10);
            assert(a10 + s10 =~= a9 + s9);
        }
        encode_next(&self.10, sink, Ghost(b), Ghost(o), Ghost(a10));
        let ghost a11 = a10 + e10;
        proof {
            assert(s10 == e10 + s11);
            assert(a11 + s11 =~= a10 + s10);
        }
        encode_next(&self.11, sink, Ghost(b), Ghost(o), Ghost(a11));
        let ghost a12 = a11 + e11;
        proof {
            assert(s11 == e11 + s12);
            assert(a12 + s12 =~= a11 + s11);
        }
        encode_next(&self.12, sink, Ghost(b), Ghost(o), Ghost(a12));
        let ghost a13 = a12 + e12;
        proof {
            assert(s12 == e12 + s13);
            assert(a13 + s13 =~= a12 + s12);
        }
        encode_next(&self.13, sink, Ghost(b), Ghost(o), Ghost(a13));
        let ghost a14 = a13 + e13;
        proof {
            assert(s13 == e13 + s14);
            assert(a14 + s14 =~= a13 + s13);
        }
        encode_next(&self.14, sink, Ghost(b), Ghost(o), Ghost(a14));
        let ghost a15 = a14 + e14;
    }

    fn decode(source: &mut Source) -> (r: Result<Self, CanonError>) {
        let ghost rest = source.remaining();
        let a = match A::decode(source) {
            Ok(a) => a,
            Err(e) => return Err(e),
        };
        let others = match <(B, C, D, E, F, G, H, I, J, K, L, M, N, O)>::decode(source) {
            Ok(t) => t,
            Err(e) => return Err(e),
        };
        proof {
            if let Decoded::Value(_, n) = A::spec_decoding(rest) {
                if let Decoded::Value(_, m) = <(B, C, D, E, F, G, H, I, J, K, L, M, N, O)>::spec_decoding(rest.skip(n as int)) {
                    assert(rest.skip(n as int).skip(m as int) =~= rest.skip((n + m) as int));
                }
            }
        }
        let (b_, c_, d_, e_, f_, g_, h_, i_, j_, k_, l_, m_, n_, o_) = others;
        Ok((a, b_, c_, d_, e_, f_, g_, h_, i_, j_, k_, l_, m_, n_, o_))
    }

    fn encoded_len(&self) -> (n: usize) {
        self.0.encoded_len() + self.1.encoded_len() + self.2.encoded_len() + self.3.encoded_len() + self.4.encoded_len() + self.5.encoded_len() + self.6.encoded_len() + self.7.encoded_len() + self.8.encoded_len() + self.9.encoded_len() + self.10.encoded_len() + self.11.encoded_len() + self.12.encoded_len() + self.13.encoded_len() + self.14.encoded_len()
    }

    proof fn lemma_decode_encoding(&self, rest: Seq<u8>) {
        lemma_decode_pair(self.0, (self.1, self.2, self.3, self.4, self.5, self.6, self.7, self.8, self.9, self.10, self.11, self.12, self.13, self.14), rest);
    }
}


impl<A: Canon, B: Canon, C: Canon, D: Canon, E: Canon, F: Canon, G: Canon, H: Canon, I: Canon, J: Canon, K: Canon, L: Canon, M: Canon, N: Canon, O: Canon, P: Canon> Canon for (A, B, C, D, E, F, G, H, I, J, K, L, M, N, O, P) {
    type Model = (A::Model, B::Model, C::Model, D::Model, E::Model, F::Model, G::Model, H::Model, I::Model, J::Model, K::Model, L::Model, M::Model, N::Model, O::Model, P::Model);

    open spec fn model(&self) -> (A::Model, B::Model, C::Model, D::Model, E::Model, F::Model, G::Model, H::Model, I::Model, J::Model, K::Model, L::Model, M::Model, N::Model, O::Model, P::Model) {
        (self.0.model(), self.1.model(), self.2.model(), self.3.model(), self.4.model(), self.5.model(), self.6.model(), self.7.model(), self.8.model(), self.9.model(), self.10.model(), self.11.model(), self.12.model(), self.13.model(), self.14.model(), self.15.model())
    }

    open spec fn can_encode(&self) -> bool {
        self.0.can_encode() && self.1.can_encode() && self.2.can_encode() && self.3.can_encode() && self.4.can_encode() && self.5.can_encode() && self.6.can_encode() && self.7.can_encode() && self.8.can_encode() && self.9.can_encode() && self.10.can_encode() && self.11.can_encode() && self.12.can_encode() && self.13.can_encode() && self.14.can_encode() && self.15.can_encode()
    }

    /// The first element, then the others as a tuple.
    open spec fn spec_encoding(m: (A::Model, B::Model, C::Model, D::Model, E::Model, F::Model, G::Model, H::Model, I::Model, J::Model, K::Model, L::Model, M::Model, N::Model, O::Model, P::Model)) -> Seq<u8> {
        A::spec_encoding(m.0) + <(B, C, D, E, F, G, H, I, J, K, L, M, N, O, P)>::spec_encoding((m.1, m.2, m.3, m.4, m.5, m.6, m.7, m.8, m.9, m.10, m.11, m.12, m.13, m.14, m.15))
    }

    open spec fn spec_decoding(bytes: Seq<u8>) -> Decoded<(A::Model, B::Model, C::Model, D::Model, E::Model, F::Model, G::Model, H::Model, I::Model, J::Model, K::Model, L::Model, M::Model, N::Model, O::Model, P::Model)> {
        decode_pair::<A, (B, C, D, E, F, G, H, I, J, K, L, M, N, O, P)>(bytes).map(|p: (A::Model, (B::Model, C::Model, D::Model, E::Model, F::Model, G::Model, H::Model, I::Model, J::Model, K::Model, L::Model, M::Model, N::Model, O::Model, P::Model))| (p.0, p.1.0, p.1.1, p.1.2, p.1.3, p.1.4, p.1.5, p.1.6, p.1.7, p.1.8, p.1.9, p.1.10, p.1.11, p.1.12, p.1.13, p.1.14))
    }

    #[verifier::rlimit(100)]
    #[verifier::spinoff_prover]
    fn encode(&self, sink: &mut Sink) {
        let ghost b = sink.bytes@;
        let ghost o = sink.offset as int;
        let ghost m = self.model();
        let ghost e0 = A::spec_encoding(self.0.model());
        let ghost e1 = B::spec_encoding(self.1.model());
        let ghost e2 = C::spec_encoding(self.2.model());
        let ghost e3 = D::spec_encoding(self.3.model());
        let ghost e4 = E::spec_encoding(self.4.model());
        let ghost e5 = F::spec_encoding(self.5.model());
        let ghost e6 = G::spec_encoding(self.6.model());
        let ghost e7 = H::spec_encoding(self.7.model());
        let ghost e8 = I::spec_encoding(self.8.model());
        let ghost e9 = J::spec_encoding(self.9.model());
        let ghost e10 = K::spec_encoding(self.10.model());
        let ghost e11 = L::spec_encoding(self.11.model());
        let ghost e12 = M::spec_encoding(self.12.model());
        let ghost e13 = N::spec_encoding(self.13.model());
        let ghost e14 = O::spec_encoding(self.14.model());
        let ghost e15 = P::spec_encoding(self.15.model());
        let ghost s0 = <(A, B, C, D, E, F, G, H, I, J, K, L, M, N, O, P)>::spec_encoding((m.0, m.1, m.2, m.3, m.4, m.5, m.6, m.7, m.8, m.9, m.10, m.11, m.12, m.13, m.14, m.15));
        let ghost s1 = <(B, C, D, E, F, G, H, I, J, K, L, M, N, O, P)>::spec_encoding((m.1, m.2, m.3, m.4, m.5, m.6, m.7, m.8, m.9, m.10, m.11, m.12, m.13, m.14, m.15));
        let ghost s2 = <(C, D, E, F, G, H, I, J, K, L, M, N, O, P)>::spec_encoding((m.2, m.3, m.4, m.5, m.6, m.7, m.8, m.9, m.10, m.11, m.12, m.13, m.14, m.15));
        let ghost s3 = <(D, E, F, G, H, I, J, K, L, M, N, O, P)>::spec_encoding((m.3, m.4, m.5, m.6, m.7, m.8, m.9, m.10, m.11, m.12, m.13, m.14, m.15));
        let ghost s4 = <(E, F, G, H, I, J, K, L, M, N, O, P)>::spec_encoding((m.4, m.5, m.6, m.7, m.8, m.9, m.10, m.11, m.12, m.13, m.14, m.15));
        let ghost s5 = <(F, G, H, I, J, K, L, M, N, O, P)>::spec_encoding((m.5, m.6, m.7, m.8, m.9, m.10, m.11, m.12, m.13, m.14, m.15));
        let ghost s6 = <(G, H, I, J, K, L, M, N, O, P)>::spec_encoding((m.6, m.7, m.8, m.9, m.10, m.11, m.12, m.13, m.14, m.15));
        let ghost s7 = <(H, I, J, K, L, M, N, O, P)>::spec_encoding((m.7, m.8, m.9, m.10, m.11, m.12, m.13, m.14, m.15));
        let ghost s8 = <(I, J, K, L, M, N, O, P)>::spec_encoding((m.8, m.9, m.10, m.11, m.12, m.13, m.14, m.15));
        let ghost s9 = <(J, K, L, M, N, O, P)>::spec_encoding((m.9, m.10, m.11, m.12, m.13, m.14, m.15));
        let ghost s10 = <(K, L, M, N, O, P)>::spec_encoding((m.10, m.11, m.12, m.13, m.14, m.15));
        let ghost s11 = <(L, M, N, O, P)>::spec_encoding((m.11, m.12, m.13, m.14, m.15));
        let ghost s12 = <(M, N, O, P)>::spec_encoding((m.12, m.13, m.14, m.15));
        let ghost s13 = <(N, O, P)>::spec_encoding((m.13, m.14, m.15));
        let ghost s14 = <(O, P)>::spec_encoding((m.14, m.15));
        let ghost s15 = e15;
        let ghost a0 = Seq::<u8>::empty();
        proof {
            assert(a0 + s0 =~= s0);
            assert(b.take(o) + a0 + b.skip(o) =~= b);
        }
        encode_next(&self.0, sink, Ghost(b), Ghost(o), Ghost(a0));
        let ghost a1 = a0 + e0;
        proof {
            assert(s0 == e0 + s1);
            assert(a1 + s1 =~= a0 + s0);
        }
        encode_next(&self.1, sink, Ghost(b), Ghost(o), Ghost(a1));
        let ghost a2 = a1 + e1;
        proof {
            assert(s1 == e1 + s2);
            assert(a2 + s2 =~= a1 + s1);
        }
        encode_next(&self.2, sink, Ghost(b), Ghost(o), Ghost(a2));
        let ghost a3 = a2 + e2;
        proof {
            assert(s2 == e2 + s3);
            assert(a3 + s3 =~= a2 + s2);
        }
        encode_next(&self.3, sink, Ghost(b), Ghost(o), Ghost(a3));
        let ghost a4 = a3 + e3;
        proof {
            assert(s3 == e3 + s4);
            assert(a4 + s4 =~= a3 + s3);
        }
        encode_next(&self.4, sink, Ghost(b), Ghost(o), Ghost(a4));
        let ghost a5 = a4 + e4;
        proof {
            assert(s4 == e4 + s5);
            assert(a5 + s5 =~= a4 + s4);
        }
        encode_next(&self.5, sink, Ghost(b), Ghost(o), Ghost(a5));
        let ghost a6 = a5 + e5;
        proof {
            assert(s5 == e5 + s6);
            assert(a6 + s6 =~= a5 + s5);
        }
        encode_next(&self.6, sink, Ghost(b), Ghost(o), Ghost(a6));
        let ghost a7 = a6 + e6;
        proof {
            assert(s6 == e6 + s7);
            assert(a7 + s7 =~= a6 + s6);
        }
        encode_next(&self.7, sink, Ghost(b), Ghost(o), Ghost(a7));
        let ghost a8 = a7 + e7;
        proof {
            assert(s7 == e7 + s8);
            assert(a8 + s8 =~= a7 + s7);
        }
        encode_next(&self.8, sink, Ghost(b), Ghost(o), Ghost(a8));
        let ghost a9 = a8 + e8;
        proof {
            assert(s8 == e8 + s9);
            assert(a9 + s9 =~= a8 + s8);
        }
        encode_next(&self.9, sink, Ghost(b), Ghost(o), Ghost(a9));
        let ghost a10 = a9 + e9;
        proof {
            assert(s9 == e9 + s10);
            assert(a10 + s10 =~= a9 + s9);
        }
        encode_next(&self.10, sink, Ghost(b), Ghost(o), Ghost(a10));
        let ghost a11 = a10 + e10;
        proof {
            assert(s10 == e10 + s11);
            assert(a11 + s11 =~= a10 + s10);
        }
        encode_next(&self.11, sink, Ghost(b), Ghost(o), Ghost(a11));
        let ghost a12 = a11 + e11;
        proof {
            assert(s11 == e11 + s12);
            assert(a12 + s12 =~= a11 + s11);
        }
        encode_next(&self.12, sink, Ghost(b), Ghost(o), Ghost(a12));
        let ghost a13 = a12 + e12;
        proof {
            assert(s12 == e12 + s13);
            assert(a13 + s13 =~= a12 + s12);
        }
        encode_next(&self.13, sink, Ghost(b), Ghost(o), Ghost(a13));
        let ghost a14 = a13 + e13;
        proof {
            assert(s13 == e13 + s14);
            assert(a14 + s14 =~= a13 + s13);
        }
        encode_next(&self.14, sink, Ghost(b), Ghost(o), Ghost(a14));
        let ghost a15 = a14 + e14;
        proof {
            assert(s14 == e14 + s15);
            assert(a15 + s15 =~= a14 + s14);
        }
        encode_next(&self.15, sink, Ghost(b), Ghost(o), Ghost(a15));
        let ghost a16 = a15 + e15;
    }

    fn decode(source: &mut Source) -> (r: Result<Self, CanonError>) {
        let ghost rest = source.remaining();
        let a = match A::decode(source) {
            Ok(a) => a,
            Err(e) => return Err(e),
        };
        let others = match <(B, C, D, E, F, G, H, I, J, K, L, M, N, O, P)>::decode(source) {
            Ok(t) => t,
            Err(e) => return Err(e),
        };
        proof {
            if let Decoded::Value(_, n) = A::spec_decoding(rest) {
                if let Decoded::Value(_, m) = <(B, C, D, E, F, G, H, I, J, K, L, M, N, O, P)>::spec_decoding(rest.skip(n as int)) {
                    assert(rest.skip(n as int).skip(m as int) =~= rest.skip((n + m) as int));
                }
            }
        }
        let (b_, c_, d_, e_, f_, g_, h_, i_, j_, k_, l_, m_, n_, o_, p_) = others;
        Ok((a, b_, c_, d_, e_, f_, g_, h_, i_, j_, k_, l_, m_, n_, o_, p_))
    }

    fn encoded_len(&self) -> (n: usize) {
        self.0.encoded_len() + self.1.encoded_len() + self.2.encoded_len() + self.3.encoded_len() + self.4.encoded_len() + self.5.encoded_len() + self.6.encoded_len() + self.7.encoded_len() + self.8.encoded_len() + self.9.encoded_len() + self.10.encoded_len() + self.11.encoded_len() + self.12.encoded_len() + self.13.encoded_len() + self.14.encoded_len() + self.15.encoded_len()
    }

    proof fn lemma_decode_encoding(&self, rest: Seq<u8>) {
        lemma_decode_pair(self.0, (self.1, self.2, self.3, self.4, self.5, self.6, self.7, self.8, self.9, self.10, self.11, self.12, self.13, self.14, self.15), rest);
    }
}


} // verus!
