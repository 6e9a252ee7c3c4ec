//! Sequences: `Vec` and `String`, each as its length (a variable length
//! integer) followed by its elements or its UTF-8 bytes.
use crate::canon::{Canon, CanonError, Decoded};
use crate::store::{lemma_write_twice, Sink, Source};
use crate::varint::{
    lemma_varint_roundtrip, read_varint, varint_bytes, varint_decoding, varint_len, write_varint,
};
use vstd::prelude::*;
use vstd::utf8::{decode_utf8, encode_utf8, valid_utf8};

verus! {

/// The models of the elements of `v`.
pub open spec fn models<T: Canon>(v: Seq<T>) -> Seq<T::Model> {
    v.map_values(|t: T| t.model())
}

/// The encodings of the values in `ms`, one after the other.
pub open spec fn encode_all<T: Canon>(ms: Seq<T::Model>) -> Seq<u8>
    decreases ms.len(),
{
    if ms.len() == 0 {
        Seq::empty()
    } else {
        encode_all::<T>(ms.drop_last()) + T::spec_encoding(ms.last())
    }
}

/// Decoding `k` values of `T`, one after the other, from the front of `bytes`.
pub open spec fn decode_n<T: Canon>(bytes: Seq<u8>, k: nat) -> Decoded<Seq<T::Model>>
    decreases k,
{
    if k == 0 {
        Decoded::Value(Seq::empty(), 0)
    } else {
        match decode_n::<T>(bytes, (k - 1) as nat) {
            Decoded::Value(ms, n) => match T::spec_decoding(bytes.skip(n as int)) {
                Decoded::Value(m, l) => Decoded::Value(ms.push(m), n + l),
                Decoded::Invalid => Decoded::Invalid,
                Decoded::Short => Decoded::Short,
            },
            Decoded::Invalid => Decoded::Invalid,
            Decoded::Short => Decoded::Short,
        }
    }
}

/// A length prefix, then what `f` decodes from the bytes after it.
pub open spec fn after_len<M>(bytes: Seq<u8>, f: spec_fn(u64, Seq<u8>) -> Decoded<M>) -> Decoded<M> {
    match varint_decoding(bytes) {
        Decoded::Value(len, n) => match f(len, bytes.skip(n as int)) {
            Decoded::Value(m, l) => Decoded::Value(m, n + l),
            Decoded::Invalid => Decoded::Invalid,
            Decoded::Short => Decoded::Short,
        },
        Decoded::Invalid => Decoded::Invalid,
        Decoded::Short => Decoded::Short,
    }
}

/// Once decoding `i` values fails, decoding more fails the same way.
pub proof fn lemma_decode_n_fails_on<T: Canon>(bytes: Seq<u8>, i: nat, k: nat)
    requires
        i <= k,
    ensures
        decode_n::<T>(bytes, i) is Invalid ==> decode_n::<T>(bytes, k) is Invalid,
        decode_n::<T>(bytes, i) is Short ==> decode_n::<T>(bytes, k) is Short,
    decreases k,
{
    if i < k {
        lemma_decode_n_fails_on::<T>(bytes, i, (k - 1) as nat);
    }
}

/// The encodings of a prefix are a prefix of the encodings.
pub proof fn lemma_encode_all_prefix<T: Canon>(ms: Seq<T::Model>, i: int)
    requires
        0 <= i <= ms.len(),
    ensures
        encode_all::<T>(ms.take(i)).len() <= encode_all::<T>(ms).len(),
    decreases ms.len(),
{
    if i < ms.len() {
        assert(ms.drop_last().take(i) =~= ms.take(i));
        lemma_encode_all_prefix::<T>(ms.drop_last(), i);
    } else {
        assert(ms.take(i) =~= ms);
    }
}

/// Bytes encode as themselves, one after the other.
pub proof fn lemma_encode_all_bytes(ms: Seq<u8>)
    ensures
        encode_all::<u8>(ms) == ms,
    decreases ms.len(),
{
    if ms.len() > 0 {
        lemma_encode_all_bytes(ms.drop_last());
        assert(ms.drop_last().push(ms.last()) =~= ms);
    } else {
        assert(ms =~= Seq::<u8>::empty());
    }
}

/// Decoding the encodings of the values in `v`, followed by anything, gives them back.
pub proof fn lemma_decode_all<T: Canon>(v: Seq<T>, rest: Seq<u8>)
    requires
        encode_all::<T>(models(v)).len() <= usize::MAX,
    ensures
        decode_n::<T>(encode_all::<T>(models(v)) + rest, v.len()) == Decoded::Value(
            models(v),
            encode_all::<T>(models(v)).len(),
        ),
    decreases v.len(),
{
    if v.len() > 0 {
        let init = v.drop_last();
        let last = v.last();
        assert(models(v).drop_last() =~= models(init));
        let e0 = encode_all::<T>(models(init));
        let e1 = T::spec_encoding(last.model());
        let all = encode_all::<T>(models(v)) + rest;
        assert(all =~= e0 + (e1 + rest));
        lemma_decode_all(init, e1 + rest);
        assert(all.skip(e0.len() as int) =~= e1 + rest);
        last.lemma_decode_encoding(rest);
        assert(models(init).push(last.model()) =~= models(v));
    } else {
        assert(models(v) =~= Seq::<T::Model>::empty());
    }
}

impl<T: Canon> Canon for Vec<T> {
    type Model = Seq<T::Model>;

    open spec fn model(&self) -> Seq<T::Model> {
        models(self@)
    }

    open spec fn can_encode(&self) -> bool {
        forall|i: int| 0 <= i < self@.len() ==> #[trigger] self@[i].can_encode()
    }

    /// The number of elements, then each element.
    open spec fn spec_encoding(m: Seq<T::Model>) -> Seq<u8> {
        varint_bytes(m.len()) + encode_all::<T>(m)
    }

    open spec fn spec_decoding(bytes: Seq<u8>) -> Decoded<Seq<T::Model>> {
        after_len(bytes, |len: u64, rest: Seq<u8>| decode_n::<T>(rest, len as nat))
    }

    fn encode(&self, sink: &mut Sink) {
        let ghost b = sink.bytes@;
        let ghost o = sink.offset as int;
        let ghost ms = self.model();
        let ghost lb = varint_bytes(self@.len());
        write_varint(self.len() as u64, sink);
        let mut i: usize = 0;
        while i < self.len()
            invariant
                0 <= i <= self@.len(),
                ms == models(self@),
                self.can_encode(),
                sink.offset == o + lb.len() + encode_all::<T>(ms.take(i as int)).len(),
                sink.bytes@ == b.take(o) + lb + encode_all::<T>(ms.take(i as int)) + b.skip(
                    o + lb.len() + encode_all::<T>(ms.take(i as int)).len(),
                ),
                o + lb.len() + encode_all::<T>(ms).len() <= b.len(),
                sink.bytes@.len() == b.len(),
                final(sink.bytes)@ == final(old(sink).bytes)@,
            decreases self@.len() - i,
        {
            let ghost before = sink.bytes@;
            let ghost e0 = encode_all::<T>(ms.take(i as int));
            let ghost e1 = T::spec_encoding(self@[i as int].model());
            proof {
                assert(ms.take(i + 1).drop_last() =~= ms.take(i as int));
                assert(ms.take(i + 1).last() == self@[i as int].model());
                lemma_encode_all_prefix::<T>(ms, i + 1);
            }
            self[i].encode(sink);
            proof {
                lemma_write_twice(b, o, lb + e0, e1);
                assert(before.take(o + lb.len() + e0.len()) =~= b.take(o) + lb + e0);
                assert(before.skip(o + lb.len() + e0.len() + e1.len()) =~= b.skip(
                    o + lb.len() + e0.len() + e1.len(),
                ));
                assert(b.take(o) + (lb + e0 + e1) =~= b.take(o) + lb + encode_all::<T>(
                    ms.take(i + 1),
                ));
            }
            i = i + 1;
        }
        proof {
            assert(ms.take(i as int) =~= ms);
            assert(b.take(o) + lb + encode_all::<T>(ms) =~= b.take(o) + Self::spec_encoding(ms));
        }
    }

    fn decode(source: &mut Source) -> (r: Result<Self, CanonError>) {
        let len = match read_varint(source) {
            Ok(len) => len,
            Err(e) => return Err(e),
        };
        let ghost rest = source.remaining();
        let ghost n0 = (old(source).remaining().len() - rest.len()) as nat;
        let mut vec: Vec<T> = Vec::new();
        let mut i: u64 = 0;
        proof {
            assert(models(vec@) =~= Seq::<T::Model>::empty());
            assert(rest.skip(0) =~= rest);
        }
        while i < len
            invariant
                i <= len,
                source.wf(),
                source.buffer() == old(source).buffer(),
                decode_n::<T>(rest, len as nat).in_bounds(),
                varint_decoding(old(source).remaining()) == Decoded::<u64>::Value(len, n0),
                rest == old(source).remaining().skip(n0 as int),
                n0 <= old(source).remaining().len(),
                decode_n::<T>(rest, i as nat) matches Decoded::Value(ms, c) && ms == models(
                    vec@,
                ) && c <= rest.len() && source.remaining() == rest.skip(c as int),
            decreases len - i,
        {
            proof {
                lemma_decode_n_fails_on::<T>(rest, (i + 1) as nat, len as nat);
            }
            match T::decode(source) {
                Ok(t) => {
                    let ghost old_vec = vec@;
                    vec.push(t);
                    proof {
                        assert(models(vec@) =~= models(old_vec).push(t.model()));
                        if let Decoded::Value(_, c) = decode_n::<T>(rest, i as nat) {
                            if let Decoded::Value(_, l) = T::spec_decoding(rest.skip(c as int)) {
                                assert(rest.skip(c as int).skip(l as int) =~= rest.skip(
                                    (c + l) as int,
                                ));
                            }
                        }
                    }
                },
                Err(e) => {
                    return Err(e);
                },
            }
            i = i + 1;
        }
        proof {
            if let Decoded::Value(_, c) = decode_n::<T>(rest, len as nat) {
                assert(old(source).remaining().skip(n0 as int).skip(c as int) =~= old(
                    source,
                ).remaining().skip((n0 + c) as int));
            }
        }
        Ok(vec)
    }

    fn encoded_len(&self) -> (n: usize) {
        let ghost ms = self.model();
        proof {
            lemma_encode_all_prefix::<T>(ms, self@.len() as int);
        }
        let mut len: usize = varint_len(self.len() as u64);
        let mut i: usize = 0;
        while i < self.len()
            invariant
                0 <= i <= self@.len(),
                ms == models(self@),
                self.can_encode(),
                len == varint_bytes(self@.len()).len() + encode_all::<T>(ms.take(i as int)).len(),
                varint_bytes(self@.len()).len() + encode_all::<T>(ms).len() <= usize::MAX,
            decreases self@.len() - i,
        {
            proof {
                assert(ms.take(i + 1).drop_last() =~= ms.take(i as int));
                lemma_encode_all_prefix::<T>(ms, i + 1);
            }
            len = len + self[i].encoded_len();
            i = i + 1;
        }
        proof {
            assert(ms.take(i as int) =~= ms);
        }
        len
    }

    proof fn lemma_decode_encoding(&self, rest: Seq<u8>) {
        let ms = self.model();
        let lb = varint_bytes(self@.len());
        let e = encode_all::<T>(ms);
        let all = Self::spec_encoding(ms) + rest;
        assert(all =~= lb + (e + rest));
        vstd::std_specs::vec::axiom_spec_len(self);
        assert(self@.len() <= u64::MAX);
        lemma_varint_roundtrip(self@.len() as u64, e + rest);
        assert(all.skip(lb.len() as int) =~= e + rest);
        lemma_decode_all(self@, rest);
    }
}

/// `TryFrom<Vec<T>>` for `[T; N]` of std: the elements of `v` as an array,
/// when `v` has exactly `N` of them, else nothing.
#[verifier::external_body]
fn array_from_vec<T, const N: usize>(v: Vec<T>) -> (r: Option<[T; N]>)
    ensures
        r is Some <==> v@.len() == N,
        r matches Some(a) ==> a@ == v@,
{
    <[T; N]>::try_from(v).ok()
}

impl<T: Canon, const N: usize> Canon for [T; N] {
    type Model = Seq<T::Model>;

    open spec fn model(&self) -> Seq<T::Model> {
        models(self@)
    }

    open spec fn can_encode(&self) -> bool {
        forall|i: int| 0 <= i < self@.len() ==> #[trigger] self@[i].can_encode()
    }

    /// Each element, one after the other, with no length: `N` is known.
    open spec fn spec_encoding(m: Seq<T::Model>) -> Seq<u8> {
        encode_all::<T>(m)
    }

    open spec fn spec_decoding(bytes: Seq<u8>) -> Decoded<Seq<T::Model>> {
        decode_n::<T>(bytes, N as nat)
    }

    fn encode(&self, sink: &mut Sink) {
        let ghost b = sink.bytes@;
        let ghost o = sink.offset as int;
        let ghost ms = self.model();
        proof {
            vstd::array::array_len_matches_n(self);
        }
        let mut i: usize = 0;
        while i < N
            invariant
                0 <= i <= N,
                self@.len() == N,
                ms == models(self@),
                self.can_encode(),
                sink.offset == o + encode_all::<T>(ms.take(i as int)).len(),
                sink.bytes@ == b.take(o) + encode_all::<T>(ms.take(i as int)) + b.skip(
                    o + encode_all::<T>(ms.take(i as int)).len(),
                ),
                o + encode_all::<T>(ms).len() <= b.len(),
                0 <= o,
                sink.bytes@.len() == b.len(),
                final(sink.bytes)@ == final(old(sink).bytes)@,
            decreases N - i,
        {
            let ghost before = sink.bytes@;
            let ghost e0 = encode_all::<T>(ms.take(i as int));
            let ghost e1 = T::spec_encoding(self@[i as int].model());
            proof {
                assert(ms.take(i + 1).drop_last() =~= ms.take(i as int));
                assert(ms.take(i + 1).last() == self@[i as int].model());
                lemma_encode_all_prefix::<T>(ms, i + 1);
            }
            self[i].encode(sink);
            proof {
                lemma_write_twice(b, o, e0, e1);
                assert(before.take(o + e0.len()) =~= b.take(o) + e0);
                assert(before.skip(o + e0.len() + e1.len()) =~= b.skip(o + e0.len() + e1.len()));
                assert(b.take(o) + (e0 + e1) =~= b.take(o) + encode_all::<T>(ms.take(i + 1)));
            }
            i = i + 1;
        }
        proof {
            assert(ms.take(i as int) =~= ms);
        }
    }

    fn decode(source: &mut Source) -> (r: Result<Self, CanonError>) {
        let ghost rest = old(source).remaining();
        let mut vec: Vec<T> = Vec::new();
        let mut i: usize = 0;
        proof {
            assert(models(vec@) =~= Seq::<T::Model>::empty());
            assert(rest.skip(0) =~= rest);
        }
        while i < N
            invariant
                i <= N,
                vec@.len() == i,
                source.wf(),
                source.buffer() == old(source).buffer(),
                rest == old(source).remaining(),
                decode_n::<T>(rest, N as nat).in_bounds(),
                decode_n::<T>(rest, i as nat) matches Decoded::Value(ms, c) && ms == models(
                    vec@,
                ) && c <= rest.len() && source.remaining() == rest.skip(c as int),
            decreases N - i,
        {
            proof {
                lemma_decode_n_fails_on::<T>(rest, (i + 1) as nat, N as nat);
            }
            match T::decode(source) {
                Ok(t) => {
                    let ghost old_vec = vec@;
                    vec.push(t);
                    proof {
                        assert(models(vec@) =~= models(old_vec).push(t.model()));
                        if let Decoded::Value(_, c) = decode_n::<T>(rest, i as nat) {
                            if let Decoded::Value(_, l) = T::spec_decoding(rest.skip(c as int)) {
                                assert(rest.skip(c as int).skip(l as int) =~= rest.skip(
                                    (c + l) as int,
                                ));
                            }
                        }
                    }
                },
                Err(e) => {
                    return Err(e);
                },
            }
            i = i + 1;
        }
        match array_from_vec::<T, N>(vec) {
            Some(a) => Ok(a),
            None => Err(CanonError::InvalidEncoding),
        }
    }

    fn encoded_len(&self) -> (n: usize) {
        let ghost ms = self.model();
        proof {
            vstd::array::array_len_matches_n(self);
            lemma_encode_all_prefix::<T>(ms, N as int);
        }
        let mut len: usize = 0;
        let mut i: usize = 0;
        while i < N
            invariant
                0 <= i <= N,
                self@.len() == N,
                ms == models(self@),
                self.can_encode(),
                len == encode_all::<T>(ms.take(i as int)).len(),
                encode_all::<T>(ms).len() <= usize::MAX,
            decreases N - i,
        {
            proof {
                assert(ms.take(i + 1).drop_last() =~= ms.take(i as int));
                lemma_encode_all_prefix::<T>(ms, i + 1);
            }
            len = len + self[i].encoded_len();
            i = i + 1;
        }
        proof {
            assert(ms.take(i as int) =~= ms);
        }
        len
    }

    proof fn lemma_decode_encoding(&self, rest: Seq<u8>) {
        vstd::array::array_len_matches_n(self);
        lemma_decode_all(self@, rest);
    }
}

/// `String::from_utf8` of std: the string whose UTF-8 encoding is `bytes`,
/// or nothing when `bytes` is not valid UTF-8.
#[verifier::external_body]
fn string_from_utf8(bytes: Vec<u8>) -> (r: Option<String>)
    ensures
        r is Some <==> valid_utf8(bytes@),
        r matches Some(s) ==> s@ == decode_utf8(bytes@),
{
    String::from_utf8(bytes).ok()
}

/// What reading `len` bytes of UTF-8 from the front of `bytes` gives.
pub open spec fn utf8_decoding(len: u64, bytes: Seq<u8>) -> Decoded<Seq<char>> {
    if len > bytes.len() {
        Decoded::Short
    } else if valid_utf8(bytes.take(len as int)) {
        Decoded::Value(decode_utf8(bytes.take(len as int)), len as nat)
    } else {
        Decoded::Invalid
    }
}

impl Canon for String {
    type Model = Seq<char>;

    open spec fn model(&self) -> Seq<char> {
        self@
    }

    open spec fn can_encode(&self) -> bool {
        true
    }

    /// The number of bytes of UTF-8, then the bytes.
    open spec fn spec_encoding(m: Seq<char>) -> Seq<u8> {
        varint_bytes(encode_utf8(m).len()) + encode_utf8(m)
    }

    open spec fn spec_decoding(bytes: Seq<u8>) -> Decoded<Seq<char>> {
        after_len(bytes, |len: u64, rest: Seq<u8>| utf8_decoding(len, rest))
    }

    fn encode(&self, sink: &mut Sink) {
        let ghost b = sink.bytes@;
        let ghost o = sink.offset as int;
        let bytes = self.as_str().as_bytes();
        let len = bytes.len() as u64;
        write_varint(len, sink);
        sink.copy_bytes(bytes);
        proof {
            lemma_write_twice(b, o, varint_bytes(len as nat), bytes@);
        }
    }

    fn decode(source: &mut Source) -> (r: Result<Self, CanonError>) {
        let len = match read_varint(source) {
            Ok(len) => len,
            Err(e) => return Err(e),
        };
        let ghost rest = source.remaining();
        let bytes = source.read_bytes(len as usize);
        proof {
            assert(rest.take(len as int) == bytes@);
            assert(old(source).remaining().skip(
                (old(source).remaining().len() - rest.len()) as int,
            ).skip(len as int) =~= old(source).remaining().skip(
                (old(source).remaining().len() - rest.len() + len) as int,
            ));
        }
        match string_from_utf8(vstd::slice::slice_to_vec(bytes)) {
            Some(s) => Ok(s),
            None => Err(CanonError::InvalidEncoding),
        }
    }

    fn encoded_len(&self) -> (n: usize) {
        let len = self.as_str().as_bytes().len();
        varint_len(len as u64) + len
    }

    proof fn lemma_decode_encoding(&self, rest: Seq<u8>) {
        let e = encode_utf8(self@);
        let lb = varint_bytes(e.len());
        let all = Self::spec_encoding(self@) + rest;
        vstd::utf8::encode_utf8_valid_utf8(self@);
        vstd::utf8::encode_utf8_decode_utf8(self@);
        assert(all =~= lb + (e + rest));
        lemma_varint_roundtrip(e.len() as u64, e + rest);
        assert(all.skip(lb.len() as int) =~= e + rest);
        assert((e + rest).take(e.len() as int) =~= e);
    }
}

} // verus!
