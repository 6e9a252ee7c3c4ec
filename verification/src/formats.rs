//! The byte formats, stated for values: what bytes a value of each type is
//! written as, and what reading those bytes back gives. These laws fix the
//! formats that the `Canon` implementations define.
use crate::canon::{Canon, CanonError, Decoded};
use crate::implementations::collections::encode_all;
use crate::repr::Repr;
use core::marker::PhantomData;
use std::rc::Rc;
use std::sync::Arc;
use vstd::utf8::encode_utf8;
use crate::hash_store::blake2b_256;
use crate::id::{id_of_bytes, Id};
use crate::query::Query;
use crate::signal::Signal;
use crate::transaction::Transaction;
use crate::varint::{two64, varint_bytes, zigzag};
use vstd::prelude::*;

verus! {

/// The hash of an identifier is the BLAKE2b digest of the bytes it stands
/// for, whether they are inlined in it or stored under that digest: for the
/// identifier of any byte string, `hash` gives the digest of that string.
pub proof fn lemma_id_hash_is_digest(id: Id, bytes: Seq<u8>)
    requires
        bytes.len() <= u32::MAX,
        id@ == id_of_bytes(bytes),
    ensures
        id.spec_hash() == blake2b_256(bytes)@,
{
    if bytes.len() <= 32 {
        assert(id@.1.take(bytes.len() as int) =~= bytes);
    }
}

/// A signed 128 bit integer is written as the unsigned integer its zigzag
/// image is: small magnitudes in two bytes (a zero high half, then the image),
/// and reading those bytes back gives the integer.
pub proof fn lemma_i128_format(m: i128, rest: Seq<u8>)
    ensures
        zigzag(m as int) < 0x1_0000_0000_0000_0000_0000_0000_0000_0000,
        <i128 as Canon>::spec_encoding(m) == <u128 as Canon>::spec_encoding(
            zigzag(m as int) as u128,
        ),
        -64 <= m < 64 ==> <i128 as Canon>::spec_encoding(m) == seq![0u8, zigzag(m as int) as u8],
        <i128 as Canon>::spec_decoding(
            <u128 as Canon>::spec_encoding(zigzag(m as int) as u128) + rest,
        ) == Decoded::Value(
            m,
            <u128 as Canon>::spec_encoding(zigzag(m as int) as u128).len(),
        ),
{
    crate::implementations::ints::lemma_unzigzag_zigzag(m as int);
    let u = zigzag(m as int) as u128;
    assert(u as nat == zigzag(m as int));
    crate::varint::lemma_varint_roundtrip(((u as nat) / two64()) as u64, Seq::empty());
    crate::varint::lemma_varint_roundtrip(((u as nat) % two64()) as u64, Seq::empty());
    u.lemma_decode_encoding(rest);
    if -64 <= m < 64 {
        assert((u as nat) / two64() == 0);
        assert((u as nat) % two64() == u as nat);
        assert(varint_bytes(0) == seq![0u8]);
        assert(varint_bytes(u as nat) == seq![u as u8]);
        assert(seq![0u8] + seq![u as u8] =~= seq![0u8, u as u8]);
    }
}

/// A query is written as its arguments alone, and bytes are read back as a
/// query exactly as they are read as its arguments.
pub proof fn lemma_query_format<Over, A: Canon, R, const ID: u8>(
    q: Query<Over, A, R, ID>,
    bytes: Seq<u8>,
)
    ensures
        <Query<Over, A, R, ID> as Canon>::spec_encoding(q.model()) == A::spec_encoding(
            q.spec_args().model(),
        ),
        <Query<Over, A, R, ID> as Canon>::spec_decoding(bytes) == A::spec_decoding(bytes),
{
}

/// A transaction is written as its arguments alone, and bytes are read back
/// as a transaction exactly as they are read as its arguments.
pub proof fn lemma_transaction_format<Over, A: Canon, R, const ID: u8>(
    t: Transaction<Over, A, R, ID>,
    bytes: Seq<u8>,
)
    ensures
        <Transaction<Over, A, R, ID> as Canon>::spec_encoding(t.model()) == A::spec_encoding(
            t.spec_args().model(),
        ),
        <Transaction<Over, A, R, ID> as Canon>::spec_decoding(bytes) == A::spec_decoding(bytes),
{
}

/// A signal is written as the index of its variant (0 for a panic, 1 for an
/// error) and then its message as a string; reading those bytes back gives
/// the same variant and message, and a first byte above 1 is refused.
pub proof fn lemma_signal_format(sig: Signal, rest: Seq<u8>, other: u8)
    requires
        <Signal as Canon>::spec_encoding(sig.model()).len() <= usize::MAX,
    ensures
        ({
            let (index, message) = match sig {
                Signal::Panic(s) => (0u8, s@),
                Signal::Error(s) => (1u8, s@),
            };
            let bytes = seq![index] + <String as Canon>::spec_encoding(message);
            &&& <Signal as Canon>::spec_encoding(sig.model()) == bytes
            &&& <Signal as Canon>::spec_decoding(bytes + rest) == Decoded::Value(
                (index, message),
                bytes.len(),
            )
            &&& sig.model() == (index, message)
        }),
        other > 1 ==> <Signal as Canon>::spec_decoding(seq![other] + rest) is Invalid,
{
    sig.lemma_decode_encoding(rest);
    assert((seq![other] + rest)[0] == other);
}

/// A byte is written as itself, and one byte is read back as itself.
pub proof fn lemma_u8_format(m: u8, x: u8, rest: Seq<u8>)
    ensures
        <u8 as Canon>::spec_encoding(m) == seq![m],
        <u8 as Canon>::spec_decoding(seq![x] + rest) == Decoded::Value(x, 1),
{
    assert((seq![x] + rest)[0] == x);
}

/// A boolean is one byte, 1 for true and 0 for false; any other first byte
/// is refused.
pub proof fn lemma_bool_format(b: bool, x: u8, rest: Seq<u8>)
    ensures
        <bool as Canon>::spec_encoding(b) == (if b {
            seq![1u8]
        } else {
            seq![0u8]
        }),
        <bool as Canon>::spec_decoding(seq![x] + rest) == (if x == 0 {
            Decoded::Value(false, 1)
        } else if x == 1 {
            Decoded::Value(true, 1)
        } else {
            Decoded::<bool>::Invalid
        }),
{
    assert((seq![x] + rest)[0] == x);
}

/// The error type is one byte, 0 for an invalid encoding and 1 for a value
/// not found; any other first byte is refused.
pub proof fn lemma_canon_error_format(e: CanonError, x: u8, rest: Seq<u8>)
    ensures
        <CanonError as Canon>::spec_encoding(e) == (match e {
            CanonError::InvalidEncoding => seq![0u8],
            CanonError::NotFound => seq![1u8],
        }),
        <CanonError as Canon>::spec_decoding(seq![x] + rest) == (if x == 0 {
            Decoded::Value(CanonError::InvalidEncoding, 1)
        } else if x == 1 {
            Decoded::Value(CanonError::NotFound, 1)
        } else {
            Decoded::<CanonError>::Invalid
        }),
{
    assert((seq![x] + rest)[0] == x);
}

/// The unit value and `PhantomData` take no bytes, and are read from none.
pub proof fn lemma_empty_formats<T>(bytes: Seq<u8>)
    ensures
        <() as Canon>::spec_encoding(()) == Seq::<u8>::empty(),
        <() as Canon>::spec_decoding(bytes) == Decoded::Value((), 0),
        <PhantomData<T> as Canon>::spec_encoding(()) == Seq::<u8>::empty(),
        <PhantomData<T> as Canon>::spec_decoding(bytes) == Decoded::Value((), 0),
{
}

/// An option is a tag byte, 0 for `None` and 1 for `Some`, followed by the
/// value if any; reading a `Some` reads the value after the tag, and a tag
/// above 1 is refused.
pub proof fn lemma_option_format<T: Canon>(o: Option<T>, x: u8, rest: Seq<u8>)
    ensures
        <Option<T> as Canon>::spec_encoding(o.model()) == (match o {
            None => seq![0u8],
            Some(t) => seq![1u8] + T::spec_encoding(t.model()),
        }),
        x > 1 ==> <Option<T> as Canon>::spec_decoding(seq![x] + rest) is Invalid,
        <Option<T> as Canon>::spec_decoding(seq![0u8] + rest) == Decoded::Value(
            None::<T::Model>,
            1,
        ),
        <Option<T> as Canon>::spec_decoding(seq![1u8] + rest) == (match T::spec_decoding(rest) {
            Decoded::Value(m, n) => Decoded::Value(Some(m), n + 1),
            Decoded::Invalid => Decoded::Invalid,
            Decoded::Short => Decoded::Short,
        }),
{
    assert((seq![x] + rest)[0] == x);
    assert((seq![0u8] + rest)[0] == 0);
    assert((seq![1u8] + rest)[0] == 1);
    assert((seq![1u8] + rest).skip(1) =~= rest);
}

/// A result is a tag byte, 0 for `Ok` and 1 for `Err`, followed by the value;
/// a tag above 1 is refused.
pub proof fn lemma_result_format<T: Canon, E: Canon>(r: Result<T, E>, x: u8, rest: Seq<u8>)
    ensures
        <Result<T, E> as Canon>::spec_encoding(r.model()) == (match r {
            Ok(t) => seq![0u8] + T::spec_encoding(t.model()),
            Err(e) => seq![1u8] + E::spec_encoding(e.model()),
        }),
        x > 1 ==> <Result<T, E> as Canon>::spec_decoding(seq![x] + rest) is Invalid,
        <Result<T, E> as Canon>::spec_decoding(seq![0u8] + rest) == (match T::spec_decoding(rest) {
            Decoded::Value(m, n) => Decoded::Value(Ok::<T::Model, E::Model>(m), n + 1),
            Decoded::Invalid => Decoded::Invalid,
            Decoded::Short => Decoded::Short,
        }),
        <Result<T, E> as Canon>::spec_decoding(seq![1u8] + rest) == (match E::spec_decoding(rest) {
            Decoded::Value(m, n) => Decoded::Value(Err::<T::Model, E::Model>(m), n + 1),
            Decoded::Invalid => Decoded::Invalid,
            Decoded::Short => Decoded::Short,
        }),
{
    assert((seq![x] + rest)[0] == x);
    assert((seq![0u8] + rest)[0] == 0);
    assert((seq![1u8] + rest)[0] == 1);
    assert((seq![0u8] + rest).skip(1) =~= rest);
    assert((seq![1u8] + rest).skip(1) =~= rest);
}

/// Shared pointers are written and read as the value they point to.
pub proof fn lemma_pointer_formats<T: Canon>(rc: Rc<T>, arc: Arc<T>, bytes: Seq<u8>)
    ensures
        <Rc<T> as Canon>::spec_encoding(rc.model()) == T::spec_encoding((*rc).model()),
        <Arc<T> as Canon>::spec_encoding(arc.model()) == T::spec_encoding((*arc).model()),
        <Rc<T> as Canon>::spec_decoding(bytes) == T::spec_decoding(bytes),
        <Arc<T> as Canon>::spec_decoding(bytes) == T::spec_decoding(bytes),
{
}

/// Unsigned integers of 16, 32 and 64 bits are written as variable length
/// integers: values below 128 in one byte, values below 16384 in two (the
/// low seven bits with the high bit set, then the rest); and they are read
/// back from those bytes.
pub proof fn lemma_unsigned_formats(a: u16, b: u32, c: u64, rest: Seq<u8>)
    ensures
        <u16 as Canon>::spec_encoding(a) == varint_bytes(a as nat),
        <u32 as Canon>::spec_encoding(b) == varint_bytes(b as nat),
        <u64 as Canon>::spec_encoding(c) == varint_bytes(c as nat),
        c < 128 ==> <u64 as Canon>::spec_encoding(c) == seq![c as u8],
        128 <= c < 16384 ==> <u64 as Canon>::spec_encoding(c) == seq![
            (c % 128 + 128) as u8,
            (c / 128) as u8,
        ],
        <u16 as Canon>::spec_decoding(varint_bytes(a as nat) + rest) == Decoded::Value(
            a,
            varint_bytes(a as nat).len(),
        ),
        <u32 as Canon>::spec_decoding(varint_bytes(b as nat) + rest) == Decoded::Value(
            b,
            varint_bytes(b as nat).len(),
        ),
        <u64 as Canon>::spec_decoding(varint_bytes(c as nat) + rest) == Decoded::Value(
            c,
            varint_bytes(c as nat).len(),
        ),
{
    crate::varint::lemma_varint_roundtrip(a as u64, Seq::empty());
    crate::varint::lemma_varint_roundtrip(b as u64, Seq::empty());
    crate::varint::lemma_varint_roundtrip(c as u64, Seq::empty());
    a.lemma_decode_encoding(rest);
    b.lemma_decode_encoding(rest);
    c.lemma_decode_encoding(rest);
    if 128 <= c < 16384 {
        reveal_with_fuel(varint_bytes, 2);
        assert(seq![(c % 128 + 128) as u8] + seq![(c / 128) as u8] =~= seq![
            (c % 128 + 128) as u8,
            (c / 128) as u8,
        ]);
    }
}

/// Signed integers of 16, 32 and 64 bits are written as the variable length
/// integer of their zigzag image (0, -1, 1, -2 ... as 0, 1, 2, 3 ...): small
/// magnitudes in one byte; and they are read back from those bytes.
pub proof fn lemma_signed_formats(a: i16, b: i32, c: i64, rest: Seq<u8>)
    ensures
        <i16 as Canon>::spec_encoding(a) == varint_bytes(zigzag(a as int)),
        <i32 as Canon>::spec_encoding(b) == varint_bytes(zigzag(b as int)),
        <i64 as Canon>::spec_encoding(c) == varint_bytes(zigzag(c as int)),
        -64 <= c < 64 ==> <i64 as Canon>::spec_encoding(c) == seq![
            (if c >= 0 {
                2 * c
            } else {
                -2 * c - 1
            }) as u8,
        ],
        <i16 as Canon>::spec_decoding(varint_bytes(zigzag(a as int)) + rest) == Decoded::Value(
            a,
            varint_bytes(zigzag(a as int)).len(),
        ),
        <i32 as Canon>::spec_decoding(varint_bytes(zigzag(b as int)) + rest) == Decoded::Value(
            b,
            varint_bytes(zigzag(b as int)).len(),
        ),
        <i64 as Canon>::spec_decoding(varint_bytes(zigzag(c as int)) + rest) == Decoded::Value(
            c,
            varint_bytes(zigzag(c as int)).len(),
        ),
{
    crate::implementations::ints::lemma_unzigzag_zigzag(a as int);
    crate::implementations::ints::lemma_unzigzag_zigzag(b as int);
    crate::implementations::ints::lemma_unzigzag_zigzag(c as int);
    crate::varint::lemma_varint_roundtrip(zigzag(a as int) as u64, Seq::empty());
    crate::varint::lemma_varint_roundtrip(zigzag(b as int) as u64, Seq::empty());
    crate::varint::lemma_varint_roundtrip(zigzag(c as int) as u64, Seq::empty());
    a.lemma_decode_encoding(rest);
    b.lemma_decode_encoding(rest);
    c.lemma_decode_encoding(rest);
}

/// An unsigned 128 bit integer is written as two variable length integers,
/// the high 64 bits first; values below 128 take two bytes, the first zero.
pub proof fn lemma_u128_format(m: u128, rest: Seq<u8>)
    ensures
        <u128 as Canon>::spec_encoding(m) == varint_bytes((m as nat) / two64()) + varint_bytes(
            (m as nat) % two64(),
        ),
        m < 128 ==> <u128 as Canon>::spec_encoding(m) == seq![0u8, m as u8],
        <u128 as Canon>::spec_decoding(<u128 as Canon>::spec_encoding(m) + rest)
            == Decoded::Value(m, <u128 as Canon>::spec_encoding(m).len()),
{
    crate::varint::lemma_varint_roundtrip(((m as nat) / two64()) as u64, Seq::empty());
    crate::varint::lemma_varint_roundtrip(((m as nat) % two64()) as u64, Seq::empty());
    m.lemma_decode_encoding(rest);
    if m < 128 {
        assert(seq![0u8] + seq![m as u8] =~= seq![0u8, m as u8]);
    }
}

/// The encodings of a sequence of values, one after the other: the encoding
/// of one value is that value's, and the encoding of two sequences joined is
/// theirs joined.
pub proof fn lemma_encode_all_joins<T: Canon>(m: T::Model, a: Seq<T::Model>, b: Seq<T::Model>)
    ensures
        encode_all::<T>(seq![m]) == T::spec_encoding(m),
        encode_all::<T>(a + b) == encode_all::<T>(a) + encode_all::<T>(b),
    decreases b.len(),
{
    assert(seq![m].drop_last() =~= Seq::<T::Model>::empty());
    assert(seq![m].last() == m);
    assert(encode_all::<T>(Seq::<T::Model>::empty()) == Seq::<u8>::empty());
    assert(Seq::<u8>::empty() + T::spec_encoding(m) =~= T::spec_encoding(m));
    if b.len() == 0 {
        assert(a + b =~= a);
        assert(encode_all::<T>(b) == Seq::<u8>::empty());
        assert(encode_all::<T>(a) + Seq::<u8>::empty() =~= encode_all::<T>(a));
    } else {
        lemma_encode_all_joins::<T>(m, a, b.drop_last());
        assert((a + b).drop_last() =~= a + b.drop_last());
        assert((a + b).last() == b.last());
        assert(encode_all::<T>(a) + encode_all::<T>(b.drop_last()) + T::spec_encoding(b.last())
            =~= encode_all::<T>(a) + (encode_all::<T>(b.drop_last()) + T::spec_encoding(b.last())));
    }
}

/// A vector is written as its number of elements, then its elements one
/// after the other: the same bytes as an array of those elements, after the
/// length. A vector of bytes is its length, then the bytes.
pub proof fn lemma_vec_format<T: Canon, const N: usize>(v: Vec<T>, a: [T; N], bytes: Vec<u8>)
    ensures
        <Vec<T> as Canon>::spec_encoding(v.model()) == varint_bytes(v@.len()) + encode_all::<T>(
            v.model(),
        ),
        <Vec<T> as Canon>::spec_encoding(a.model()) == varint_bytes(N as nat) + <[T; N] as Canon>::spec_encoding(
            a.model(),
        ),
        <Vec<u8> as Canon>::spec_encoding(bytes.model()) == varint_bytes(bytes@.len()) + bytes@,
{
    vstd::array::array_len_matches_n(&a);
    assert(crate::implementations::models(bytes@) =~= bytes@);
    crate::implementations::lemma_encode_all_bytes(bytes@);
}

/// A string is written as the number of bytes of its UTF-8 encoding, then
/// those bytes.
pub proof fn lemma_string_format(s: String)
    ensures
        <String as Canon>::spec_encoding(s.model()) == varint_bytes(encode_utf8(s@).len())
            + encode_utf8(s@),
{
}

/// A pair is written as its first element, then its second; reading back
/// reads the first, then the second from what follows.
pub proof fn lemma_pair_format<A: Canon, B: Canon>(t: (A, B), rest: Seq<u8>)
    ensures
        <(A, B) as Canon>::spec_encoding(t.model()) == A::spec_encoding(t.0.model())
            + B::spec_encoding(t.1.model()),
        <(A, B) as Canon>::spec_decoding(rest) == (match A::spec_decoding(rest) {
            Decoded::Value(a, n) => match B::spec_decoding(rest.skip(n as int)) {
                Decoded::Value(b, m) => Decoded::Value((a, b), n + m),
                Decoded::Invalid => Decoded::Invalid,
                Decoded::Short => Decoded::Short,
            },
            Decoded::Invalid => Decoded::Invalid,
            Decoded::Short => Decoded::Short,
        }),
{
}

/// An identifier is written as its length in two bytes, big endian (the low
/// 16 bits of the length), then the inlined bytes when that length is at
/// most 32, else the 32 bytes of the hash.
pub proof fn lemma_id_format(id: Id)
    ensures
        ({
            let l = id@.0 % 0x10000;
            let e = <Id as Canon>::spec_encoding(id.model());
            &&& e.len() == 2 + (if l <= 32 {
                l
            } else {
                32
            })
            &&& e[0] == (l / 256) as u8
            &&& e[1] == (l % 256) as u8
            &&& e.skip(2) == id@.1.take(e.len() - 2)
        }),
{
    id.lemma_payload_len();
    let e = <Id as Canon>::spec_encoding(id.model());
    assert(e.skip(2) =~= id.model().1);
}

/// A `Repr` is written, and read, as the identifier it stands for.
pub proof fn lemma_repr_format<T: Canon>(r: Repr<T>, id: Id, bytes: Seq<u8>)
    requires
        id@ == r.spec_id(),
    ensures
        <Repr<T> as Canon>::spec_encoding(r.model()) == <Id as Canon>::spec_encoding(id.model()),
        <Repr<T> as Canon>::spec_decoding(bytes) == <Id as Canon>::spec_decoding(bytes),
{
}

/// A tuple of 3 is written as its elements, first to last, one after the
/// other.
pub proof fn lemma_tuple3_format<A: Canon, B: Canon, C: Canon>(t: (A, B, C))
    ensures
        <(A, B, C) as Canon>::spec_encoding(t.model()) == A::spec_encoding(t.0.model()) + (B::spec_encoding(t.1.model()) + (C::spec_encoding(t.2.model()))),
{
    assert(<(B, C)>::spec_encoding((t.1.model(), t.2.model())) == B::spec_encoding(t.1.model()) + C::spec_encoding(t.2.model()));
}

/// A tuple of 4 is written as its elements, first to last, one after the
/// other.
pub proof fn lemma_tuple4_format<A: Canon, B: Canon, C: Canon, D: Canon>(t: (A, B, C, D))
    ensures
        <(A, B, C, D) as Canon>::spec_encoding(t.model()) == A::spec_encoding(t.0.model()) + (B::spec_encoding(t.1.model()) + (C::spec_encoding(t.2.model()) + (D::spec_encoding(t.3.model())))),
{
    assert(<(B, C, D)>::spec_encoding((t.1.model(), t.2.model(), t.3.model())) == B::spec_encoding(t.1.model()) + <(C, D)>::spec_encoding((t.2.model(), t.3.model())));
    assert(<(C, D)>::spec_encoding((t.2.model(), t.3.model())) == C::spec_encoding(t.2.model()) + D::spec_encoding(t.3.model()));
}

/// A tuple of 5 is written as its elements, first to last, one after the
/// other.
pub proof fn lemma_tuple5_format<A: Canon, B: Canon, C: Canon, D: Canon, E: Canon>(t: (A, B, C, D, E))
    ensures
        <(A, B, C, D, E) as Canon>::spec_encoding(t.model()) == A::spec_encoding(t.0.model()) + (B::spec_encoding(t.1.model()) + (C::spec_encoding(t.2.model()) + (D::spec_encoding(t.3.model()) + (E::spec_encoding(t.4.model()))))),
{
    assert(<(B, C, D, E)>::spec_encoding((t.1.model(), t.2.model(), t.3.model(), t.4.model())) == B::spec_encoding(t.1.model()) + <(C, D, E)>::spec_encoding((t.2.model(), t.3.model(), t.4.model())));
    assert(<(C, D, E)>::spec_encoding((t.2.model(), t.3.model(), t.4.model())) == C::spec_encoding(t.2.model()) + <(D, E)>::spec_encoding((t.3.model(), t.4.model())));
    assert(<(D, E)>::spec_encoding((t.3.model(), t.4.model())) == D::spec_encoding(t.3.model()) + E::spec_encoding(t.4.model()));
}

/// A tuple of 6 is written as its elements, first to last, one after the
/// other.
pub proof fn lemma_tuple6_format<A: Canon, B: Canon, C: Canon, D: Canon, E: Canon, F: Canon>(t: (A, B, C, D, E, F))
    ensures
        <(A, B, C, D, E, F) as Canon>::spec_encoding(t.model()) == A::spec_encoding(t.0.model()) + (B::spec_encoding(t.1.model()) + (C::spec_encoding(t.2.model()) + (D::spec_encoding(t.3.model()) + (E::spec_encoding(t.4.model()) + (F::spec_encoding(t.5.model())))))),
{
    assert(<(B, C, D, E, F)>::spec_encoding((t.1.model(), t.2.model(), t.3.model(), t.4.model(), t.5.model())) == B::spec_encoding(t.1.model()) + <(C, D, E, F)>::spec_encoding((t.2.model(), t.3.model(), t.4.model(), t.5.model())));
    assert(<(C, D, E, F)>::spec_encoding((t.2.model(), t.3.model(), t.4.model(), t.5.model())) == C::spec_encoding(t.2.model()) + <(D, E, F)>::spec_encoding((t.3.model(), t.4.model(), t.5.model())));
    assert(<(D, E, F)>::spec_encoding((t.3.model(), t.4.model(), t.5.model())) == D::spec_encoding(t.3.model()) + <(E, F)>::spec_encoding((t.4.model(), t.5.model())));
    assert(<(E, F)>::spec_encoding((t.4.model(), t.5.model())) == E::spec_encoding(t.4.model()) + F::spec_encoding(t.5.model()));
}

/// A tuple of 7 is written as its elements, first to last, one after the
/// other.
pub proof fn lemma_tuple7_format<A: Canon, B: Canon, C: Canon, D: Canon, E: Canon, F: Canon, G: Canon>(t: (A, B, C, D, E, F, G))
    ensures
        <(A, B, C, D, E, F, G) as Canon>::spec_encoding(t.model()) == A::spec_encoding(t.0.model()) + (B::spec_encoding(t.1.model()) + (C::spec_encoding(t.2.model()) + (D::spec_encoding(t.3.model()) + (E::spec_encoding(t.4.model()) + (F::spec_encoding(t.5.model()) + (G::spec_encoding(t.6.model()))))))),
{
    assert(<(B, C, D, E, F, G)>::spec_encoding((t.1.model(), t.2.model(), t.3.model(), t.4.model(), t.5.model(), t.6.model())) == B::spec_encoding(t.1.model()) + <(C, D, E, F, G)>::spec_encoding((t.2.model(), t.3.model(), t.4.model(), t.5.model(), t.6.model())));
    assert(<(C, D, E, F, G)>::spec_encoding((t.2.model(), t.3.model(), t.4.model(), t.5.model(), t.6.model())) == C::spec_encoding(t.2.model()) + <(D, E, F, G)>::spec_encoding((t.3.model(), t.4.model(), t.5.model(), t.6.model())));
    assert(<(D, E, F, G)>::spec_encoding((t.3.model(), t.4.model(), t.5.model(), t.6.model())) == D::spec_encoding(t.3.model()) + <(E, F, G)>::spec_encoding((t.4.model(), t.5.model(), t.6.model())));
    assert(<(E, F, G)>::spec_encoding((t.4.model(), t.5.model(), t.6.model())) == E::spec_encoding(t.4.model()) + <(F, G)>::spec_encoding((t.5.model(), t.6.model())));
    assert(<(F, G)>::spec_encoding((t.5.model(), t.6.model())) == F::spec_encoding(t.5.model()) + G::spec_encoding(t.6.model()));
}

/// A tuple of 8 is written as its elements, first to last, one after the
/// other.
pub proof fn lemma_tuple8_format<A: Canon, B: Canon, C: Canon, D: Canon, E: Canon, F: Canon, G: Canon, H: Canon>(t: (A, B, C, D, E, F, G, H))
    ensures
        <(A, B, C, D, E, F, G, H) as Canon>::spec_encoding(t.model()) == A::spec_encoding(t.0.model()) + (B::spec_encoding(t.1.model()) + (C::spec_encoding(t.2.model()) + (D::spec_encoding(t.3.model()) + (E::spec_encoding(t.4.model()) + (F::spec_encoding(t.5.model()) + (G::spec_encoding(t.6.model()) + (H::spec_encoding(t.7.model())))))))),
{
    assert(<(B, C, D, E, F, G, H)>::spec_encoding((t.1.model(), t.2.model(), t.3.model(), t.4.model(), t.5.model(), t.6.model(), t.7.model())) == B::spec_encoding(t.1.model()) + <(C, D, E, F, G, H)>::spec_encoding((t.2.model(), t.3.model(), t.4.model(), t.5.model(), t.6.model(), t.7.model())));
    assert(<(C, D, E, F, G, H)>::spec_encoding((t.2.model(), t.3.model(), t.4.model(), t.5.model(), t.6.model(), t.7.model())) == C::spec_encoding(t.2.model()) + <(D, E, F, G, H)>::spec_encoding((t.3.model(), t.4.model(), t.5.model(), t.6.model(), t.7.model())));
    assert(<(D, E, F, G, H)>::spec_encoding((t.3.model(), t.4.model(), t.5.model(), t.6.model(), t.7.model())) == D::spec_encoding(t.3.model()) + <(E, F, G, H)>::spec_encoding((t.4.model(), t.5.model(), t.6.model(), t.7.model())));
    assert(<(E, F, G, H)>::spec_encoding((t.4.model(), t.5.model(), t.6.model(), t.7.model())) == E::spec_encoding(t.4.model()) + <(F, G, H)>::spec_encoding((t.5.model(), t.6.model(), t.7.model())));
    assert(<(F, G, H)>::spec_encoding((t.5.model(), t.6.model(), t.7.model())) == F::spec_encoding(t.5.model()) + <(G, H)>::spec_encoding((t.6.model(), t.7.model())));
    assert(<(G, H)>::spec_encoding((t.6.model(), t.7.model())) == G::spec_encoding(t.6.model()) + H::spec_encoding(t.7.model()));
}

/// A tuple of 9 is written as its elements, first to last, one after the
/// other.
pub proof fn lemma_tuple9_format<A: Canon, B: Canon, C: Canon, D: Canon, E: Canon, F: Canon, G: Canon, H: Canon, I: Canon>(t: (A, B, C, D, E, F, G, H, I))
    ensures
        <(A, B, C, D, E, F, G, H, I) as Canon>::spec_encoding(t.model()) == A::spec_encoding(t.0.model()) + (B::spec_encoding(t.1.model()) + (C::spec_encoding(t.2.model()) + (D::spec_encoding(t.3.model()) + (E::spec_encoding(t.4.model()) + (F::spec_encoding(t.5.model()) + (G::spec_encoding(t.6.model()) + (H::spec_encoding(t.7.model()) + (I::spec_encoding(t.8.model()))))))))),
{
    assert(<(B, C, D, E, F, G, H, I)>::spec_encoding((t.1.model(), t.2.model(), t.3.model(), t.4.model(), t.5.model(), t.6.model(), t.7.model(), t.8.model())) == B::spec_encoding(t.1.model()) + <(C, D, E, F, G, H, I)>::spec_encoding((t.2.model(), t.3.model(), t.4.model(), t.5.model(), t.6.model(), t.7.model(), t.8.model())));
    assert(<(C, D, E, F, G, H, I)>::spec_encoding((t.2.model(), t.3.model(), t.4.model(), t.5.model(), t.6.model(), t.7.model(), t.8.model())) == C::spec_encoding(t.2.model()) + <(D, E, F, G, H, I)>::spec_encoding((t.3.model(), t.4.model(), t.5.model(), t.6.model(), t.7.model(), t.8.model())));
    assert(<(D, E, F, G, H, I)>::spec_encoding((t.3.model(), t.4.model(), t.5.model(), t.6.model(), t.7.model(), t.8.model())) == D::spec_encoding(t.3.model()) + <(E, F, G, H, I)>::spec_encoding((t.4.model(), t.5.model(), t.6.model(), t.7.model(), t.8.model())));
    assert(<(E, F, G, H, I)>::spec_encoding((t.4.model(), t.5.model(), t.6.model(), t.7.model(), t.8.model())) == E::spec_encoding(t.4.model()) + <(F, G, H, I)>::spec_encoding((t.5.model(), t.6.model(), t.7.model(), t.8.model())));
    assert(<(F, G, H, I)>::spec_encoding((t.5.model(), t.6.model(), t.7.model(), t.8.model())) == F::spec_encoding(t.5.model()) + <(G, H, I)>::spec_encoding((t.6.model(), t.7.model(), t.8.model())));
    assert(<(G, H, I)>::spec_encoding((t.6.model(), t.7.model(), t.8.model())) == G::spec_encoding(t.6.model()) + <(H, I)>::spec_encoding((t.7.model(), t.8.model())));
    assert(<(H, I)>::spec_encoding((t.7.model(), t.8.model())) == H::spec_encoding(t.7.model()) + I::spec_encoding(t.8.model()));
}

/// A tuple of 10 is written as its elements, first to last, one after the
/// other.
pub proof fn lemma_tuple10_format<A: Canon, B: Canon, C: Canon, D: Canon, E: Canon, F: Canon, G: Canon, H: Canon, I: Canon, J: Canon>(t: (A, B, C, D, E, F, G, H, I, J))
    ensures
        <(A, B, C, D, E, F, G, H, I, J) as Canon>::spec_encoding(t.model()) == A::spec_encoding(t.0.model()) + (B::spec_encoding(t.1.model()) + (C::spec_encoding(t.2.model()) + (D::spec_encoding(t.3.model()) + (E::spec_encoding(t.4.model()) + (F::spec_encoding(t.5.model()) + (G::spec_encoding(t.6.model()) + (H::spec_encoding(t.7.model()) + (I::spec_encoding(t.8.model()) + (J::spec_encoding(t.9.model())))))))))),
{
    assert(<(B, C, D, E, F, G, H, I, J)>::spec_encoding((t.1.model(), t.2.model(), t.3.model(), t.4.model(), t.5.model(), t.6.model(), t.7.model(), t.8.model(), t.9.model())) == B::spec_encoding(t.1.model()) + <(C, D, E, F, G, H, I, J)>::spec_encoding((t.2.model(), t.3.model(), t.4.model(), t.5.model(), t.6.model(), t.7.model(), t.8.model(), t.9.model())));
    assert(<(C, D, E, F, G, H, I, J)>::spec_encoding((t.2.model(), t.3.model(), t.4.model(), t.5.model(), t.6.model(), t.7.model(), t.8.model(), t.9.model())) == C::spec_encoding(t.2.model()) + <(D, E, F, G, H, I, J)>::spec_encoding((t.3.model(), t.4.model(), t.5.model(), t.6.model(), t.7.model(), t.8.model(), t.9.model())));
    assert(<(D, E, F, G, H, I, J)>::spec_encoding((t.3.model(), t.4.model(), t.5.model(), t.6.model(), t.7.model(), t.8.model(), t.9.model())) == D::spec_encoding(t.3.model()) + <(E, F, G, H, I, J)>::spec_encoding((t.4.model(), t.5.model(), t.6.model(), t.7.model(), t.8.model(), t.9.model())));
    assert(<(E, F, G, H, I, J)>::spec_encoding((t.4.model(), t.5.model(), t.6.model(), t.7.model(), t.8.model(), t.9.model())) == E::spec_encoding(t.4.model()) + <(F, G, H, I, J)>::spec_encoding((t.5.model(), t.6.model(), t.7.model(), t.8.model(), t.9.model())));
    assert(<(F, G, H, I, J)>::spec_encoding((t.5.model(), t.6.model(), t.7.model(), t.8.model(), t.9.model())) == F::spec_encoding(t.5.model()) + <(G, H, I, J)>::spec_encoding((t.6.model(), t.7.model(), t.8.model(), t.9.model())));
    assert(<(G, H, I, J)>::spec_encoding((t.6.model(), t.7.model(), t.8.model(), t.9.model())) == G::spec_encoding(t.6.model()) + <(H, I, J)>::spec_encoding((t.7.model(), t.8.model(), t.9.model())));
    assert(<(H, I, J)>::spec_encoding((t.7.model(), t.8.model(), t.9.model())) == H::spec_encoding(t.7.model()) + <(I, J)>::spec_encoding((t.8.model(), t.9.model())));
    assert(<(I, J)>::spec_encoding((t.8.model(), t.9.model())) == I::spec_encoding(t.8.model()) + J::spec_encoding(t.9.model()));
}

/// A tuple of 11 is written as its elements, first to last, one after the
/// other.
pub proof fn lemma_tuple11_format<A: Canon, B: Canon, C: Canon, D: Canon, E: Canon, F: Canon, G: Canon, H: Canon, I: Canon, J: Canon, K: Canon>(t: (A, B, C, D, E, F, G, H, I, J, K))
    ensures
        <(A, B, C, D, E, F, G, H, I, J, K) as Canon>::spec_encoding(t.model()) == A::spec_encoding(t.0.model()) + (B::spec_encoding(t.1.model()) + (C::spec_encoding(t.2.model()) + (D::spec_encoding(t.3.model()) + (E::spec_encoding(t.4.model()) + (F::spec_encoding(t.5.model()) + (G::spec_encoding(t.6.model()) + (H::spec_encoding(t.7.model()) + (I::spec_encoding(t.8.model()) + (J::spec_encoding(t.9.model()) + (K::spec_encoding(t.10.model()))))))))))),
{
    assert(<(B, C, D, E, F, G, H, I, J, K)>::spec_encoding((t.1.model(), t.2.model(), t.3.model(), t.4.model(), t.5.model(), t.6.model(), t.7.model(), t.8.model(), t.9.model(), t.10.model())) == B::spec_encoding(t.1.model()) + <(C, D, E, F, G, H, I, J, K)>::spec_encoding((t.2.model(), t.3.model(), t.4.model(), t.5.model(), t.6.model(), t.7.model(), t.8.model(), t.9.model(), t.10.model())));
    assert(<(C, D, E, F, G, H, I, J, K)>::spec_encoding((t.2.model(), t.3.model(), t.4.model(), t.5.model(), t.6.model(), t.7.model(), t.8.model(), t.9.model(), t.10.model())) == C::spec_encoding(t.2.model()) + <(D, E, F, G, H, I, J, K)>::spec_encoding((t.3.model(), t.4.model(), t.5.model(), t.6.model(), t.7.model(), t.8.model(), t.9.model(), t.10.model())));
    assert(<(D, E, F, G, H, I, J, K)>::spec_encoding((t.3.model(), t.4.model(), t.5.model(), t.6.model(), t.7.model(), t.8.model(), t.9.model(), t.10.model())) == D::spec_encoding(t.3.model()) + <(E, F, G, H, I, J, K)>::spec_encoding((t.4.model(), t.5.model(), t.6.model(), t.7.model(), t.8.model(), t.9.model(), t.10.model())));
    assert(<(E, F, G, H, I, J, K)>::spec_encoding((t.4.model(), t.5.model(), t.6.model(), t.7.model(), t.8.model(), t.9.model(), t.10.model())) == E::spec_encoding(t.4.model()) + <(F, G, H, I, J, K)>::spec_encoding((t.5.model(), t.6.model(), t.7.model(), t.8.model(), t.9.model(), t.10.model())));
    assert(<(F, G, H, I, J, K)>::spec_encoding((t.5.model(), t.6.model(), t.7.model(), t.8.model(), t.9.model(), t.10.model())) == F::spec_encoding(t.5.model()) + <(G, H, I, J, K)>::spec_encoding((t.6.model(), t.7.model(), t.8.model(), t.9.model(), t.10.model())));
    assert(<(G, H, I, J, K)>::spec_encoding((t.6.model(), t.7.model(), t.8.model(), t.9.model(), t.10.model())) == G::spec_encoding(t.6.model()) + <(H, I, J, K)>::spec_encoding((t.7.model(), t.8.model(), t.9.model(), t.10.model())));
    assert(<(H, I, J, K)>::spec_encoding((t.7.model(), t.8.model(), t.9.model(), t.10.model())) == H::spec_encoding(t.7.model()) + <(I, J, K)>::spec_encoding((t.8.model(), t.9.model(), t.10.model())));
    assert(<(I, J, K)>::spec_encoding((t.8.model(), t.9.model(), t.10.model())) == I::spec_encoding(t.8.model()) + <(J, K)>::spec_encoding((t.9.model(), t.10.model())));
    assert(<(J, K)>::spec_encoding((t.9.model(), t.10.model())) == J::spec_encoding(t.9.model()) + K::spec_encoding(t.10.model()));
}

/// A tuple of 12 is written as its elements, first to last, one after the
/// other.
pub proof fn lemma_tuple12_format<A: Canon, B: Canon, C: Canon, D: Canon, E: Canon, F: Canon, G: Canon, H: Canon, I: Canon, J: Canon, K: Canon, L: Canon>(t: (A, B, C, D, E, F, G, H, I, J, K, L))
    ensures
        <(A, B, C, D, E, F, G, H, I, J, K, L) as Canon>::spec_encoding(t.model()) == A::spec_encoding(t.0.model()) + (B::spec_encoding(t.1.model()) + (C::spec_encoding(t.2.model()) + (D::spec_encoding(t.3.model()) + (E::spec_encoding(t.4.model()) + (F::spec_encoding(t.5.model()) + (G::spec_encoding(t.6.model()) + (H::spec_encoding(t.7.model()) + (I::spec_encoding(t.8.model()) + (J::spec_encoding(t.9.model()) + (K::spec_encoding(t.10.model()) + (L::spec_encoding(t.11.model())))))))))))),
{
    assert(<(B, C, D, E, F, G, H, I, J, K, L)>::spec_encoding((t.1.model(), t.2.model(), t.3.model(), t.4.model(), t.5.model(), t.6.model(), t.7.model(), t.8.model(), t.9.model(), t.10.model(), t.11.model())) == B::spec_encoding(t.1.model()) + <(C, D, E, F, G, H, I, J, K, L)>::spec_encoding((t.2.model(), t.3.model(), t.4.model(), t.5.model(), t.6.model(), t.7.model(), t.8.model(), t.9.model(), t.10.model(), t.11.model())));
    assert(<(C, D, E, F, G, H, I, J, K, L)>::spec_encoding((t.2.model(), t.3.model(), t.4.model(), t.5.model(), t.6.model(), t.7.model(), t.8.model(), t.9.model(), t.10.model(), t.11.model())) == C::spec_encoding(t.2.model()) + <(D, E, F, G, H, I, J, K, L)>::spec_encoding((t.3.model(), t.4.model(), t.5.model(), t.6.model(), t.7.model(), t.8.model(), t.9.model(), t.10.model(), t.11.model())));
    assert(<(D, E, F, G, H, I, J, K, L)>::spec_encoding((t.3.model(), t.4.model(), t.5.model(), t.6.model(), t.7.model(), t.8.model(), t.9.model(), t.10.model(), t.11.model())) == D::spec_encoding(t.3.model()) + <(E, F, G, H, I, J, K, L)>::spec_encoding((t.4.model(), t.5.model(), t.6.model(), t.7.model(), t.8.model(), t.9.model(), t.10.model(), t.11.model())));
    assert(<(E, F, G, H, I, J, K, L)>::spec_encoding((t.4.model(), t.5.model(), t.6.model(), t.7.model(), t.8.model(), t.9.model(), t.10.model(), t.11.model())) == E::spec_encoding(t.4.model()) + <(F, G, H, I, J, K, L)>::spec_encoding((t.5.model(), t.6.model(), t.7.model(), t.8.model(), t.9.model(), t.10.model(), t.11.model())));
    assert(<(F, G, H, I, J, K, L)>::spec_encoding((t.5.model(), t.6.model(), t.7.model(), t.8.model(), t.9.model(), t.10.model(), t.11.model())) == F::spec_encoding(t.5.model()) + <(G, H, I, J, K, L)>::spec_encoding((t.6.model(), t.7.model(), t.8.model(), t.9.model(), t.10.model(), t.11.model())));
    assert(<(G, H, I, J, K, L)>::spec_encoding((t.6.model(), t.7.model(), t.8.model(), t.9.model(), t.10.model(), t.11.model())) == G::spec_encoding(t.6.model()) + <(H, I, J, K, L)>::spec_encoding((t.7.model(), t.8.model(), t.9.model(), t.10.model(), t.11.model())));
    assert(<(H, I, J, K, L)>::spec_encoding((t.7.model(), t.8.model(), t.9.model(), t.10.model(), t.11.model())) == H::spec_encoding(t.7.model()) + <(I, J, K, L)>::spec_encoding((t.8.model(), t.9.model(), t.10.model(), t.11.model())));
    assert(<(I, J, K, L)>::spec_encoding((t.8.model(), t.9.model(), t.10.model(), t.11.model())) == I::spec_encoding(t.8.model()) + <(J, K, L)>::spec_encoding((t.9.model(), t.10.model(), t.11.model())));
    assert(<(J, K, L)>::spec_encoding((t.9.model(), t.10.model(), t.11.model())) == J::spec_encoding(t.9.model()) + <(K, L)>::spec_encoding((t.10.model(), t.11.model())));
    assert(<(K, L)>::spec_encoding((t.10.model(), t.11.model())) == K::spec_encoding(t.10.model()) + L::spec_encoding(t.11.model()));
}

/// A tuple of 13 is written as its elements, first to last, one after the
/// other.
pub proof fn lemma_tuple13_format<A: Canon, B: Canon, C: Canon, D: Canon, E: Canon, F: Canon, G: Canon, H: Canon, I: Canon, J: Canon, K: Canon, L: Canon, M: Canon>(t: (A, B, C, D, E, F, G, H, I, J, K, L, M))
    ensures
        <(A, B, C, D, E, F, G, H, I, J, K, L, M) as Canon>::spec_encoding(t.model()) == A::spec_encoding(t.0.model()) + (B::spec_encoding(t.1.model()) + (C::spec_encoding(t.2.model()) + (D::spec_encoding(t.3.model()) + (E::spec_encoding(t.4.model()) + (F::spec_encoding(t.5.model()) + (G::spec_encoding(t.6.model()) + (H::spec_encoding(t.7.model()) + (I::spec_encoding(t.8.model()) + (J::spec_encoding(t.9.model()) + (K::spec_encoding(t.10.model()) + (L::spec_encoding(t.11.model()) + (M::spec_encoding(t.12.model()))))))))))))),
{
    assert(<(B, C, D, E, F, G, H, I, J, K, L, M)>::spec_encoding((t.1.model(), t.2.model(), t.3.model(), t.4.model(), t.5.model(), t.6.model(), t.7.model(), t.8.model(), t.9.model(), t.10.model(), t.11.model(), t.12.model())) == B::spec_encoding(t.1.model()) + <(C, D, E, F, G, H, I, J, K, L, M)>::spec_encoding((t.2.model(), t.3.model(), t.4.model(), t.5.model(), t.6.model(), t.7.model(), t.8.model(), t.9.model(), t.10.model(), t.11.model(), t.12.model())));
    assert(<(C, D, E, F, G, H, I, J, K, L, M)>::spec_encoding((t.2.model(), t.3.model(), t.4.model(), t.5.model(), t.6.model(), t.7.model(), t.8.model(), t.9.model(), t.10.model(), t.11.model(), t.12.model())) == C::spec_encoding(t.2.model()) + <(D, E, F, G, H, I, J, K, L, M)>::spec_encoding((t.3.model(), t.4.model(), t.5.model(), t.6.model(), t.7.model(), t.8.model(), t.9.model(), t.10.model(), t.11.model(), t.12.model())));
    assert(<(D, E, F, G, H, I, J, K, L, M)>::spec_encoding((t.3.model(), t.4.model(), t.5.model(), t.6.model(), t.7.model(), t.8.model(), t.9.model(), t.10.model(), t.11.model(), t.12.model())) == D::spec_encoding(t.3.model()) + <(E, F, G, H, I, J, K, L, M)>::spec_encoding((t.4.model(), t.5.model(), t.6.model(), t.7.model(), t.8.model(), t.9.model(), t.10.model(), t.11.model(), t.12.model())));
    assert(<(E, F, G, H, I, J, K, L, M)>::spec_encoding((t.4.model(), t.5.model(), t.6.model(), t.7.model(), t.8.model(), t.9.model(), t.10.model(), t.11.model(), t.12.model())) == E::spec_encoding(t.4.model()) + <(F, G, H, I, J, K, L, M)>::spec_encoding((t.5.model(), t.6.model(), t.7.model(), t.8.model(), t.9.model(), t.10.model(), t.11.model(), t.12.model())));
    assert(<(F, G, H, I, J, K, L, M)>::spec_encoding((t.5.model(), t.6.model(), t.7.model(), t.8.model(), t.9.model(), t.10.model(), t.11.model(), t.12.model())) == F::spec_encoding(t.5.model()) + <(G, H, I, J, K, L, M)>::spec_encoding((t.6.model(), t.7.model(), t.8.model(), t.9.model(), t.10.model(), t.11.model(), t.12.model())));
    assert(<(G, H, I, J, K, L, M)>::spec_encoding((t.6.model(), t.7.model(), t.8.model(), t.9.model(), t.10.model(), t.11.model(), t.12.model())) == G::spec_encoding(t.6.model()) + <(H, I, J, K, L, M)>::spec_encoding((t.7.model(), t.8.model(), t.9.model(), t.10.model(), t.11.model(), t.12.model())));
    assert(<(H, I, J, K, L, M)>::spec_encoding((t.7.model(), t.8.model(), t.9.model(), t.10.model(), t.11.model(), t.12.model())) == H::spec_encoding(t.7.model()) + <(I, J, K, L, M)>::spec_encoding((t.8.model(), t.9.model(), t.10.model(), t.11.model(), t.12.model())));
    assert(<(I, J, K, L, M)>::spec_encoding((t.8.model(), t.9.model(), t.10.model(), t.11.model(), t.12.model())) == I::spec_encoding(t.8.model()) + <(J, K, L, M)>::spec_encoding((t.9.model(), t.10.model(), t.11.model(), t.12.model())));
    assert(<(J, K, L, M)>::spec_encoding((t.9.model(), t.10.model(), t.11.model(), t.12.model())) == J::spec_encoding(t.9.model()) + <(K, L, M)>::spec_encoding((t.10.model(), t.11.model(), t.12.model())));
    assert(<(K, L, M)>::spec_encoding((t.10.model(), t.11.model(), t.12.model())) == K::spec_encoding(t.10.model()) + <(L, M)>::spec_encoding((t.11.model(), t.12.model())));
    assert(<(L, M)>::spec_encoding((t.11.model(), t.12.model())) == L::spec_encoding(t.11.model()) + M::spec_encoding(t.12.model()));
}

/// A tuple of 14 is written as its elements, first to last, one after the
/// other.
pub proof fn lemma_tuple14_format<A: Canon, B: Canon, C: Canon, D: Canon, E: Canon, F: Canon, G: Canon, H: Canon, I: Canon, J: Canon, K: Canon, L: Canon, M: Canon, N: Canon>(t: (A, B, C, D, E, F, G, H, I, J, K, L, M, N))
    ensures
        <(A, B, C, D, E, F, G, H, I, J, K, L, M, N) as Canon>::spec_encoding(t.model()) == A::spec_encoding(t.0.model()) + (B::spec_encoding(t.1.model()) + (C::spec_encoding(t.2.model()) + (D::spec_encoding(t.3.model()) + (E::spec_encoding(t.4.model()) + (F::spec_encoding(t.5.model()) + (G::spec_encoding(t.6.model()) + (H::spec_encoding(t.7.model()) + (I::spec_encoding(t.8.model()) + (J::spec_encoding(t.9.model()) + (K::spec_encoding(t.10.model()) + (L::spec_encoding(t.11.model()) + (M::spec_encoding(t.12.model()) + (N::spec_encoding(t.13.model())))))))))))))),
{
    assert(<(B, C, D, E, F, G, H, I, J, K, L, M, N)>::spec_encoding((t.1.model(), t.2.model(), t.3.model(), t.4.model(), t.5.model(), t.6.model(), t.7.model(), t.8.model(), t.9.model(), t.10.model(), t.11.model(), t.12.model(), t.13.model())) == B::spec_encoding(t.1.model()) + <(C, D, E, F, G, H, I, J, K, L, M, N)>::spec_encoding((t.2.model(), t.3.model(), t.4.model(), t.5.model(), t.6.model(), t.7.model(), t.8.model(), t.9.model(), t.10.model(), t.11.model(), t.12.model(), t.13.model())));
    assert(<(C, D, E, F, G, H, I, J, K, L, M, N)>::spec_encoding((t.2.model(), t.3.model(), t.4.model(), t.5.model(), t.6.model(), t.7.model(), t.8.model(), t.9.model(), t.10.model(), t.11.model(), t.12.model(), t.13.model())) == C::spec_encoding(t.2.model()) + <(D, E, F, G, H, I, J, K, L, M, N)>::spec_encoding((t.3.model(), t.4.model(), t.5.model(), t.6.model(), t.7.model(), t.8.model(), t.9.model(), t.10.model(), t.11.model(), t.12.model(), t.13.model())));
    assert(<(D, E, F, G, H, I, J, K, L, M, N)>::spec_encoding((t.3.model(), t.4.model(), t.5.model(), t.6.model(), t.7.model(), t.8.model(), t.9.model(), t.10.model(), t.11.model(), t.12.model(), t.13.model())) == D::spec_encoding(t.3.model()) + <(E, F, G, H, I, J, K, L, M, N)>::spec_encoding((t.4.model(), t.5.model(), t.6.model(), t.7.model(), t.8.model(), t.9.model(), t.10.model(), t.11.model(), t.12.model(), t.13.model())));
    assert(<(E, F, G, H, I, J, K, L, M, N)>::spec_encoding((t.4.model(), t.5.model(), t.6.model(), t.7.model(), t.8.model(), t.9.model(), t.10.model(), t.11.model(), t.12.model(), t.13.model())) == E::spec_encoding(t.4.model()) + <(F, G, H, I, J, K, L, M, N)>::spec_encoding((t.5.model(), t.6.model(), t.7.model(), t.8.model(), t.9.model(), t.10.model(), t.11.model(), t.12.model(), t.13.model())));
    assert(<(F, G, H, I, J, K, L, M, N)>::spec_encoding((t.5.model(), t.6.model(), t.7.model(), t.8.model(), t.9.model(), t.10.model(), t.11.model(), t.12.model(), t.13.model())) == F::spec_encoding(t.5.model()) + <(G, H, I, J, K, L, M, N)>::spec_encoding((t.6.model(), t.7.model(), t.8.model(), t.9.model(), t.10.model(), t.11.model(), t.12.model(), t.13.model())));
    assert(<(G, H, I, J, K, L, M, N)>::spec_encoding((t.6.model(), t.7.model(), t.8.model(), t.9.model(), t.10.model(), t.11.model(), t.12.model(), t.13.model())) == G::spec_encoding(t.6.model()) + <(H, I, J, K, L, M, N)>::spec_encoding((t.7.model(), t.8.model(), t.9.model(), t.10.model(), t.11.model(), t.12.model(), t.13.model())));
    assert(<(H, I, J, K, L, M, N)>::spec_encoding((t.7.model(), t.8.model(), t.9.model(), t.10.model(), t.11.model(), t.12.model(), t.13.model())) == H::spec_encoding(t.7.model()) + <(I, J, K, L, M, N)>::spec_encoding((t.8.model(), t.9.model(), t.10.model(), t.11.model(), t.12.model(), t.13.model())));
    assert(<(I, J, K, L, M, N)>::spec_encoding((t.8.model(), t.9.model(), t.10.model(), t.11.model(), t.12.model(), t.13.model())) == I::spec_encoding(t.8.model()) + <(J, K, L, M, N)>::spec_encoding((t.9.model(), t.10.model(), t.11.model(), t.12.model(), t.13.model())));
    assert(<(J, K, L, M, N)>::spec_encoding((t.9.model(), t.10.model(), t.11.model(), t.12.model(), t.13.model())) == J::spec_encoding(t.9.model()) + <(K, L, M, N)>::spec_encoding((t.10.model(), t.11.model(), t.12.model(), t.13.model())));
    assert(<(K, L, M, N)>::spec_encoding((t.10.model(), t.11.model(), t.12.model(), t.13.model())) == K::spec_encoding(t.10.model()) + <(L, M, N)>::spec_encoding((t.11.model(), t.12.model(), t.13.model())));
    assert(<(L, M, N)>::spec_encoding((t.11.model(), t.12.model(), t.13.model())) == L::spec_encoding(t.11.model()) + <(M, N)>::spec_encoding((t.12.model(), t.13.model())));
    assert(<(M, N)>::spec_encoding((t.12.model(), t.13.model())) == M::spec_encoding(t.12.model()) + N::spec_encoding(t.13.model()));
}

/// A tuple of 15 is written as its elements, first to last, one after the
/// other.
pub proof fn lemma_tuple15_format<A: Canon, B: Canon, C: Canon, D: Canon, E: Canon, F: Canon, G: Canon, H: Canon, I: Canon, J: Canon, K: Canon, L: Canon, M: Canon, N: Canon, O: Canon>(t: (A, B, C, D, E, F, G, H, I, J, K, L, M, N, O))
    ensures
        <(A, B, C, D, E, F, G, H, I, J, K, L, M, N, O) as Canon>::spec_encoding(t.model()) == A::spec_encoding(t.0.model()) + (B::spec_encoding(t.1.model()) + (C::spec_encoding(t.2.model()) + (D::spec_encoding(t.3.model()) + (E::spec_encoding(t.4.model()) + (F::spec_encoding(t.5.model()) + (G::spec_encoding(t.6.model()) + (H::spec_encoding(t.7.model()) + (I::spec_encoding(t.8.model()) + (J::spec_encoding(t.9.model()) + (K::spec_encoding(t.10.model()) + (L::spec_encoding(t.11.model()) + (M::spec_encoding(t.12.model()) + (N::spec_encoding(t.13.model()) + (O::spec_encoding(t.14.model()))))))))))))))),
{
    assert(<(B, C, D, E, F, G, H, I, J, K, L, M, N, O)>::spec_encoding((t.1.model(), t.2.model(), t.3.model(), t.4.model(), t.5.model(), t.6.model(), t.7.model(), t.8.model(), t.9.model(), t.10.model(), t.11.model(), t.12.model(), t.13.model(), t.14.model())) == B::spec_encoding(t.1.model()) + <(C, D, E, F, G, H, I, J, K, L, M, N, O)>::spec_encoding((t.2.model(), t.3.model(), t.4.model(), t.5.model(), t.6.model(), t.7.model(), t.8.model(), t.9.model(), t.10.model(), t.11.model(), t.12.model(), t.13.model(), t.14.model())));
    assert(<(C, D, E, F, G, H, I, J, K, L, M, N, O)>::spec_encoding((t.2.model(), t.3.model(), t.4.model(), t.5.model(), t.6.model(), t.7.model(), t.8.model(), t.9.model(), t.10.model(), t.11.model(), t.12.model(), t.13.model(), t.14.model())) == C::spec_encoding(t.2.model()) + <(D, E, F, G, H, I, J, K, L, M, N, O)>::spec_encoding((t.3.model(), t.4.model(), t.5.model(), t.6.model(), t.7.model(), t.8.model(), t.9.model(), t.10.model(), t.11.model(), t.12.model(), t.13.model(), t.14.model())));
    assert(<(D, E, F, G, H, I, J, K, L, M, N, O)>::spec_encoding((t.3.model(), t.4.model(), t.5.model(), t.6.model(), t.7.model(), t.8.model(), t.9.model(), t.10.model(), t.11.model(), t.12.model(), t.13.model(), t.14.model())) == D::spec_encoding(t.3.model()) + <(E, F, G, H, I, J, K, L, M, N, O)>::spec_encoding((t.4.model(), t.5.model(), t.6.model(), t.7.model(), t.8.model(), t.9.model(), t.10.model(), t.11.model(), t.12.model(), t.13.model(), t.14.model())));
    assert(<(E, F, G, H, I, J, K, L, M, N, O)>::spec_encoding((t.4.model(), t.5.model(), t.6.model(), t.7.model(), t.8.model(), t.9.model(), t.10.model(), t.11.model(), t.12.model(), t.13.model(), t.14.model())) == E::spec_encoding(t.4.model()) + <(F, G, H, I, J, K, L, M, N, O)>::spec_encoding((t.5.model(), t.6.model(), t.7.model(), t.8.model(), t.9.model(), t.10.model(), t.11.model(), t.12.model(), t.13.model(), t.14.model())));
    assert(<(F, G, H, I, J, K, L, M, N, O)>::spec_encoding((t.5.model(), t.6.model(), t.7.model(), t.8.model(), t.9.model(), t.10.model(), t.11.model(), t.12.model(), t.13.model(), t.14.model())) == F::spec_encoding(t.5.model()) + <(G, H, I, J, K, L, M, N, O)>::spec_encoding((t.6.model(), t.7.model(), t.8.model(), t.9.model(), t.10.model(), t.11.model(), t.12.model(), t.13.model(), t.14.model())));
    assert(<(G, H, I, J, K, L, M, N, O)>::spec_encoding((t.6.model(), t.7.model(), t.8.model(), t.9.model(), t.10.model(), t.11.model(), t.12.model(), t.13.model(), t.14.model())) == G::spec_encoding(t.6.model()) + <(H, I, J, K, L, M, N, O)>::spec_encoding((t.7.model(), t.8.model(), t.9.model(), t.10.model(), t.11.model(), t.12.model(), t.13.model(), t.14.model())));
    assert(<(H, I, J, K, L, M, N, O)>::spec_encoding((t.7.model(), t.8.model(), t.9.model(), t.10.model(), t.11.model(), t.12.model(), t.13.model(), t.14.model())) == H::spec_encoding(t.7.model()) + <(I, J, K, L, M, N, O)>::spec_encoding((t.8.model(), t.9.model(), t.10.model(), t.11.model(), t.12.model(), t.13.model(), t.14.model())));
    assert(<(I, J, K, L, M, N, O)>::spec_encoding((t.8.model(), t.9.model(), t.10.model(), t.11.model(), t.12.model(), t.13.model(), t.14.model())) == I::spec_encoding(t.8.model()) + <(J, K, L, M, N, O)>::spec_encoding((t.9.model(), t.10.model(), t.11.model(), t.12.model(), t.13.model(), t.14.model())));
    assert(<(J, K, L, M, N, O)>::spec_encoding((t.9.model(), t.10.model(), t.11.model(), t.12.model(), t.13.model(), t.14.model())) == J::spec_encoding(t.9.model()) + <(K, L, M, N, O)>::spec_encoding((t.10.model(), t.11.model(), t.12.model(), t.13.model(), t.14.model())));
    assert(<(K, L, M, N, O)>::spec_encoding((t.10.model(), t.11.model(), t.12.model(), t.13.model(), t.14.model())) == K::spec_encoding(t.10.model()) + <(L, M, N, O)>::spec_encoding((t.11.model(), t.12.model(), t.13.model(), t.14.model())));
    assert(<(L, M, N, O)>::spec_encoding((t.11.model(), t.12.model(), t.13.model(), t.14.model())) == L::spec_encoding(t.11.model()) + <(M, N, O)>::spec_encoding((t.12.model(), t.13.model(), t.14.model())));
    assert(<(M, N, O)>::spec_encoding((t.12.model(), t.13.model(), t.14.model())) == M::spec_encoding(t.12.model()) + <(N, O)>::spec_encoding((t.13.model(), t.14.model())));
    assert(<(N, O)>::spec_encoding((t.13.model(), t.14.model())) == N::spec_encoding(t.13.model()) + O::spec_encoding(t.14.model()));
}

/// A tuple of 16 is written as its elements, first to last, one after the
/// other.
pub proof fn lemma_tuple16_format<A: Canon, B: Canon, C: Canon, D: Canon, E: Canon, F: Canon, G: Canon, H: Canon, I: Canon, J: Canon, K: Canon, L: Canon, M: Canon, N: Canon, O: Canon, P: Canon>(t: (A, B, C, D, E, F, G, H, I, J, K, L, M, N, O, P))
    ensures
        <(A, B, C, D, E, F, G, H, I, J, K, L, M, N, O, P) as Canon>::spec_encoding(t.model()) == A::spec_encoding(t.0.model()) + (B::spec_encoding(t.1.model()) + (C::spec_encoding(t.2.model()) + (D::spec_encoding(t.3.model()) + (E::spec_encoding(t.4.model()) + (F::spec_encoding(t.5.model()) + (G::spec_encoding(t.6.model()) + (H::spec_encoding(t.7.model()) + (I::spec_encoding(t.8.model()) + (J::spec_encoding(t.9.model()) + (K::spec_encoding(t.10.model()) + (L::spec_encoding(t.11.model()) + (M::spec_encoding(t.12.model()) + (N::spec_encoding(t.13.model()) + (O::spec_encoding(t.14.model()) + (P::spec_encoding(t.15.model())))))))))))))))),
{
    assert(<(B, C, D, E, F, G, H, I, J, K, L, M, N, O, P)>::spec_encoding((t.1.model(), t.2.model(), t.3.model(), t.4.model(), t.5.model(), t.6.model(), t.7.model(), t.8.model(), t.9.model(), t.10.model(), t.11.model(), t.12.model(), t.13.model(), t.14.model(), t.15.model())) == B::spec_encoding(t.1.model()) + <(C, D, E, F, G, H, I, J, K, L, M, N, O, P)>::spec_encoding((t.2.model(), t.3.model(), t.4.model(), t.5.model(), t.6.model(), t.7.model(), t.8.model(), t.9.model(), t.10.model(), t.11.model(), t.12.model(), t.13.model(), t.14.model(), t.15.model())));
    assert(<(C, D, E, F, G, H, I, J, K, L, M, N, O, P)>::spec_encoding((t.2.model(), t.3.model(), t.4.model(), t.5.model(), t.6.model(), t.7.model(), t.8.model(), t.9.model(), t.10.model(), t.11.model(), t.12.model(), t.13.model(), t.14.model(), t.15.model())) == C::spec_encoding(t.2.model()) + <(D, E, F, G, H, I, J, K, L, M, N, O, P)>::spec_encoding((t.3.model(), t.4.model(), t.5.model(), t.6.model(), t.7.model(), t.8.model(), t.9.model(), t.10.model(), t.11.model(), t.12.model(), t.13.model(), t.14.model(), t.15.model())));
    assert(<(D, E, F, G, H, I, J, K, L, M, N, O, P)>::spec_encoding((t.3.model(), t.4.model(), t.5.model(), t.6.model(), t.7.model(), t.8.model(), t.9.model(), t.10.model(), t.11.model(), t.12.model(), t.13.model(), t.14.model(), t.15.model())) == D::spec_encoding(t.3.model()) + <(E, F, G, H, I, J, K, L, M, N, O, P)>::spec_encoding((t.4.model(), t.5.model(), t.6.model(), t.7.model(), t.8.model(), t.9.model(), t.10.model(), t.11.model(), t.12.model(), t.13.model(), t.14.model(), t.15.model())));
    assert(<(E, F, G, H, I, J, K, L, M, N, O, P)>::spec_encoding((t.4.model(), t.5.model(), t.6.model(), t.7.model(), t.8.model(), t.9.model(), t.10.model(), t.11.model(), t.12.model(), t.13.model(), t.14.model(), t.15.model())) == E::spec_encoding(t.4.model()) + <(F, G, H, I, J, K, L, M, N, O, P)>::spec_encoding((t.5.model(), t.6.model(), t.7.model(), t.8.model(), t.9.model(), t.10.model(), t.11.model(), t.12.model(), t.13.model(), t.14.model(), t.15.model())));
    assert(<(F, G, H, I, J, K, L, M, N, O, P)>::spec_encoding((t.5.model(), t.6.model(), t.7.model(), t.8.model(), t.9.model(), t.10.model(), t.11.model(), t.12.model(), t.13.model(), t.14.model(), t.15.model())) == F::spec_encoding(t.5.model()) + <(G, H, I, J, K, L, M, N, O, P)>::spec_encoding((t.6.model(), t.7.model(), t.8.model(), t.9.model(), t.10.model(), t.11.model(), t.12.model(), t.13.model(), t.14.model(), t.15.model())));
    assert(<(G, H, I, J, K, L, M, N, O, P)>::spec_encoding((t.6.model(), t.7.model(), t.8.model(), t.9.model(), t.10.model(), t.11.model(), t.12.model(), t.13.model(), t.14.model(), t.15.model())) == G::spec_encoding(t.6.model()) + <(H, I, J, K, L, M, N, O, P)>::spec_encoding((t.7.model(), t.8.model(), t.9.model(), t.10.model(), t.11.model(), t.12.model(), t.13.model(), t.14.model(), t.15.model())));
    assert(<(H, I, J, K, L, M, N, O, P)>::spec_encoding((t.7.model(), t.8.model(), t.9.model(), t.10.model(), t.11.model(), t.12.model(), t.13.model(), t.14.model(), t.15.model())) == H::spec_encoding(t.7.model()) + <(I, J, K, L, M, N, O, P)>::spec_encoding((t.8.model(), t.9.model(), t.10.model(), t.11.model(), t.12.model(), t.13.model(), t.14.model(), t.15.model())));
    assert(<(I, J, K, L, M, N, O, P)>::spec_encoding((t.8.model(), t.9.model(), t.10.model(), t.11.model(), t.12.model(), t.13.model(), t.14.model(), t.15.model())) == I::spec_encoding(t.8.model()) + <(J, K, L, M, N, O, P)>::spec_encoding((t.9.model(), t.10.model(), t.11.model(), t.12.model(), t.13.model(), t.14.model(), t.15.model())));
    assert(<(J, K, L, M, N, O, P)>::spec_encoding((t.9.model(), t.10.model(), t.11.model(), t.12.model(), t.13.model(), t.14.model(), t.15.model())) == J::spec_encoding(t.9.model()) + <(K, L, M, N, O, P)>::spec_encoding((t.10.model(), t.11.model(), t.12.model(), t.13.model(), t.14.model(), t.15.model())));
    assert(<(K, L, M, N, O, P)>::spec_encoding((t.10.model(), t.11.model(), t.12.model(), t.13.model(), t.14.model(), t.15.model())) == K::spec_encoding(t.10.model()) + <(L, M, N, O, P)>::spec_encoding((t.11.model(), t.12.model(), t.13.model(), t.14.model(), t.15.model())));
    assert(<(L, M, N, O, P)>::spec_encoding((t.11.model(), t.12.model(), t.13.model(), t.14.model(), t.15.model())) == L::spec_encoding(t.11.model()) + <(M, N, O, P)>::spec_encoding((t.12.model(), t.13.model(), t.14.model(), t.15.model())));
    assert(<(M, N, O, P)>::spec_encoding((t.12.model(), t.13.model(), t.14.model(), t.15.model())) == M::spec_encoding(t.12.model()) + <(N, O, P)>::spec_encoding((t.13.model(), t.14.model(), t.15.model())));
    assert(<(N, O, P)>::spec_encoding((t.13.model(), t.14.model(), t.15.model())) == N::spec_encoding(t.13.model()) + <(O, P)>::spec_encoding((t.14.model(), t.15.model())));
    assert(<(O, P)>::spec_encoding((t.14.model(), t.15.model())) == O::spec_encoding(t.14.model()) + P::spec_encoding(t.15.model()));
}


/// The identifier of a byte string of at most 32 bytes holds the bytes
/// themselves, followed by zeros, and stands for them in any store; the
/// identifier of a longer one holds its BLAKE2b digest.
pub proof fn lemma_id_of_bytes_format(bytes: Seq<u8>, store: Map<Seq<u8>, Seq<u8>>, i: int)
    requires
        bytes.len() <= u32::MAX,
    ensures
        id_of_bytes(bytes).0 == bytes.len(),
        id_of_bytes(bytes).1.len() == 32,
        bytes.len() <= 32 && 0 <= i < bytes.len() ==> id_of_bytes(bytes).1[i] == bytes[i],
        bytes.len() <= 32 && bytes.len() <= i < 32 ==> id_of_bytes(bytes).1[i] == 0u8,
        bytes.len() <= 32 ==> crate::id::id_target(id_of_bytes(bytes), store) == Some(bytes),
        bytes.len() > 32 ==> id_of_bytes(bytes).1 == blake2b_256(bytes)@,
{
    if bytes.len() <= 32 {
        assert(crate::id::padded(bytes).take(bytes.len() as int) =~= bytes);
    }
}

} // verus!
