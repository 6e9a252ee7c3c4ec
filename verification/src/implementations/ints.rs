//! Integers: `u8` as one byte, the others as variable length integers,
//! signed ones through the zigzag mapping, 128 bit ones as two 64 bit halves.
use crate::canon::{Canon, CanonError, Decoded};
use crate::store::{lemma_write_twice, Sink, Source};
use crate::varint::{
    lemma_varint_roundtrip, read_varint, two64, unzigzag, varint_bytes, varint_decoding, varint_len,
    write_varint, zigzag,
};
use vstd::prelude::*;

verus! {

/// `x` wrapped into the range of `i16`, as two's complement truncation does.
pub open spec fn wrap_i16(x: int) -> i16 {
    let m = x % 0x1_0000;
    (if m >= 0x8000 {
        m - 0x1_0000
    } else {
        m
    }) as i16
}

/// `x` wrapped into the range of `i32`, as two's complement truncation does.
pub open spec fn wrap_i32(x: int) -> i32 {
    let m = x % 0x1_0000_0000;
    (if m >= 0x8000_0000 {
        m - 0x1_0000_0000
    } else {
        m
    }) as i32
}

/// The zigzag image of a 64 bit integer.
fn zigzag64(v: i64) -> (u: u64)
    ensures
        u == zigzag(v as int),
{
    if v >= 0 {
        (v as u64) * 2
    } else {
        ((-(v + 1)) as u64) * 2 + 1
    }
}

/// The 64 bit integer whose zigzag image is `u`.
fn unzigzag64(u: u64) -> (v: i64)
    ensures
        v == unzigzag(u as nat),
{
    if u % 2 == 0 {
        (u / 2) as i64
    } else {
        -((u / 2) as i64) - 1
    }
}

/// Maps a signed 128 bit integer onto an unsigned one: 0, -1, 1, -2 ... to 0, 1, 2, 3 ...
pub fn zigzag_encode(from: i128) -> (u: u128)
    ensures
        u == zigzag(from as int),
{
    if from >= 0 {
        (from as u128) * 2
    } else {
        ((-(from + 1)) as u128) * 2 + 1
    }
}

/// The inverse of `zigzag_encode`.
pub fn zigzag_decode(from: u128) -> (v: i128)
    ensures
        v == unzigzag(from as nat),
{
    if from % 2 == 0 {
        (from / 2) as i128
    } else {
        -((from / 2) as i128) - 1
    }
}

/// Zigzag is a bijection between the integers and the naturals: unzigzag
/// undoes it.
pub proof fn lemma_unzigzag_zigzag(v: int)
    ensures
        unzigzag(zigzag(v)) == v,
        v >= 0 ==> zigzag(v) == 2 * v,
        v < 0 ==> zigzag(v) == -2 * v - 1,
{
}

/// Zigzag is a bijection between the integers and the naturals: zigzag
/// undoes unzigzag.
pub proof fn lemma_zigzag_unzigzag(u: nat)
    ensures
        zigzag(unzigzag(u)) == u,
{
}

fn wrap_to_i16(x: i64) -> (r: i16)
    ensures
        r == wrap_i16(x as int),
{
    let y: u64 = (x as i128 + 0x8000_0000_0000_0000i128) as u64;
    let m: u64 = y % 0x1_0000;
    assert(m as int == (x as int) % 0x1_0000);
    if m >= 0x8000 {
        (m as i64 - 0x1_0000) as i16
    } else {
        m as i16
    }
}

fn wrap_to_i32(x: i64) -> (r: i32)
    ensures
        r == wrap_i32(x as int),
{
    let y: u64 = (x as i128 + 0x8000_0000_0000_0000i128) as u64;
    let m: u64 = y % 0x1_0000_0000;
    assert(m as int == (x as int) % 0x1_0000_0000);
    if m >= 0x8000_0000 {
        (m as i64 - 0x1_0000_0000) as i32
    } else {
        m as i32
    }
}

impl Canon for u16 {
    type Model = u16;

    open spec fn model(&self) -> u16 {
        *self
    }

    open spec fn can_encode(&self) -> bool {
        true
    }

    open spec fn spec_encoding(m: u16) -> Seq<u8> {
        varint_bytes(m as nat)
    }

    open spec fn spec_decoding(bytes: Seq<u8>) -> Decoded<u16> {
        varint_decoding(bytes).map(|v: u64| (v % 0x1_0000) as u16)
    }

    fn encode(&self, sink: &mut Sink) {
        write_varint(*self as u64, sink)
    }

    fn decode(source: &mut Source) -> (r: Result<Self, CanonError>) {
        match read_varint(source) {
            Ok(v) => Ok((v % 0x1_0000) as u16),
            Err(e) => Err(e),
        }
    }

    fn encoded_len(&self) -> (n: usize) {
        varint_len(*self as u64)
    }

    proof fn lemma_decode_encoding(&self, rest: Seq<u8>) {
        lemma_varint_roundtrip(*self as u64, rest);
    }
}

impl Canon for u32 {
    type Model = u32;

    open spec fn model(&self) -> u32 {
        *self
    }

    open spec fn can_encode(&self) -> bool {
        true
    }

    open spec fn spec_encoding(m: u32) -> Seq<u8> {
        varint_bytes(m as nat)
    }

    open spec fn spec_decoding(bytes: Seq<u8>) -> Decoded<u32> {
        varint_decoding(bytes).map(|v: u64| (v % 0x1_0000_0000) as u32)
    }

    fn encode(&self, sink: &mut Sink) {
        write_varint(*self as u64, sink)
    }

    fn decode(source: &mut Source) -> (r: Result<Self, CanonError>) {
        match read_varint(source) {
            Ok(v) => Ok((v % 0x1_0000_0000) as u32),
            Err(e) => Err(e),
        }
    }

    fn encoded_len(&self) -> (n: usize) {
        varint_len(*self as u64)
    }

    proof fn lemma_decode_encoding(&self, rest: Seq<u8>) {
        lemma_varint_roundtrip(*self as u64, rest);
    }
}

impl Canon for u64 {
    type Model = u64;

    open spec fn model(&self) -> u64 {
        *self
    }

    open spec fn can_encode(&self) -> bool {
        true
    }

    open spec fn spec_encoding(m: u64) -> Seq<u8> {
        varint_bytes(m as nat)
    }

    open spec fn spec_decoding(bytes: Seq<u8>) -> Decoded<u64> {
        varint_decoding(bytes)
    }

    fn encode(&self, sink: &mut Sink) {
        write_varint(*self, sink)
    }

    fn decode(source: &mut Source) -> (r: Result<Self, CanonError>) {
        read_varint(source)
    }

    fn encoded_len(&self) -> (n: usize) {
        varint_len(*self)
    }

    proof fn lemma_decode_encoding(&self, rest: Seq<u8>) {
        lemma_varint_roundtrip(*self, rest);
    }
}

impl Canon for i16 {
    type Model = i16;

    open spec fn model(&self) -> i16 {
        *self
    }

    open spec fn can_encode(&self) -> bool {
        true
    }

    open spec fn spec_encoding(m: i16) -> Seq<u8> {
        varint_bytes(zigzag(m as int))
    }

    open spec fn spec_decoding(bytes: Seq<u8>) -> Decoded<i16> {
        varint_decoding(bytes).map(|v: u64| wrap_i16(unzigzag(v as nat)))
    }

    fn encode(&self, sink: &mut Sink) {
        write_varint(zigzag64(*self as i64), sink)
    }

    fn decode(source: &mut Source) -> (r: Result<Self, CanonError>) {
        match read_varint(source) {
            Ok(v) => Ok(wrap_to_i16(unzigzag64(v))),
            Err(e) => Err(e),
        }
    }

    fn encoded_len(&self) -> (n: usize) {
        varint_len(zigzag64(*self as i64))
    }

    proof fn lemma_decode_encoding(&self, rest: Seq<u8>) {
        lemma_unzigzag_zigzag(*self as int);
        lemma_varint_roundtrip(zigzag(*self as int) as u64, rest);
    }
}

impl Canon for i32 {
    type Model = i32;

    open spec fn model(&self) -> i32 {
        *self
    }

    open spec fn can_encode(&self) -> bool {
        true
    }

    open spec fn spec_encoding(m: i32) -> Seq<u8> {
        varint_bytes(zigzag(m as int))
    }

    open spec fn spec_decoding(bytes: Seq<u8>) -> Decoded<i32> {
        varint_decoding(bytes).map(|v: u64| wrap_i32(unzigzag(v as nat)))
    }

    fn encode(&self, sink: &mut Sink) {
        write_varint(zigzag64(*self as i64), sink)
    }

    fn decode(source: &mut Source) -> (r: Result<Self, CanonError>) {
        match read_varint(source) {
            Ok(v) => Ok(wrap_to_i32(unzigzag64(v))),
            Err(e) => Err(e),
        }
    }

    fn encoded_len(&self) -> (n: usize) {
        varint_len(zigzag64(*self as i64))
    }

    proof fn lemma_decode_encoding(&self, rest: Seq<u8>) {
        lemma_unzigzag_zigzag(*self as int);
        lemma_varint_roundtrip(zigzag(*self as int) as u64, rest);
    }
}

impl Canon for i64 {
    type Model = i64;

    open spec fn model(&self) -> i64 {
        *self
    }

    open spec fn can_encode(&self) -> bool {
        true
    }

    open spec fn spec_encoding(m: i64) -> Seq<u8> {
        varint_bytes(zigzag(m as int))
    }

    open spec fn spec_decoding(bytes: Seq<u8>) -> Decoded<i64> {
        varint_decoding(bytes).map(|v: u64| unzigzag(v as nat) as i64)
    }

    fn encode(&self, sink: &mut Sink) {
        write_varint(zigzag64(*self), sink)
    }

    fn decode(source: &mut Source) -> (r: Result<Self, CanonError>) {
        match read_varint(source) {
            Ok(v) => Ok(unzigzag64(v)),
            Err(e) => Err(e),
        }
    }

    fn encoded_len(&self) -> (n: usize) {
        varint_len(zigzag64(*self))
    }

    proof fn lemma_decode_encoding(&self, rest: Seq<u8>) {
        lemma_unzigzag_zigzag(*self as int);
        lemma_varint_roundtrip(zigzag(*self as int) as u64, rest);
    }
}

impl Canon for u128 {
    type Model = u128;

    open spec fn model(&self) -> u128 {
        *self
    }

    open spec fn can_encode(&self) -> bool {
        true
    }

    /// The high 64 bits, then the low 64 bits, each as a variable length integer.
    open spec fn spec_encoding(m: u128) -> Seq<u8> {
        varint_bytes((m as nat) / two64()) + varint_bytes((m as nat) % two64())
    }

    open spec fn spec_decoding(bytes: Seq<u8>) -> Decoded<u128> {
        match varint_decoding(bytes) {
            Decoded::Value(high, n) => match varint_decoding(bytes.skip(n as int)) {
                Decoded::Value(low, m) => Decoded::Value(
                    (low as nat + high as nat * two64()) as u128,
                    n + m,
                ),
                Decoded::Invalid => Decoded::Invalid,
                Decoded::Short => Decoded::Short,
            },
            Decoded::Invalid => Decoded::Invalid,
            Decoded::Short => Decoded::Short,
        }
    }

    fn encode(&self, sink: &mut Sink) {
        let high: u64 = (*self / 0x1_0000_0000_0000_0000u128) as u64;
        let low: u64 = (*self % 0x1_0000_0000_0000_0000u128) as u64;
        let ghost b = sink.bytes@;
        let ghost o = sink.offset as int;
        write_varint(high, sink);
        write_varint(low, sink);
        proof {
            lemma_write_twice(b, o, varint_bytes(high as nat), varint_bytes(low as nat));
        }
    }

    fn decode(source: &mut Source) -> (r: Result<Self, CanonError>) {
        let high = match read_varint(source) {
            Ok(v) => v,
            Err(e) => return Err(e),
        };
        let low = match read_varint(source) {
            Ok(v) => v,
            Err(e) => return Err(e),
        };
        Ok((low as u128) + (high as u128) * 0x1_0000_0000_0000_0000u128)
    }

    fn encoded_len(&self) -> (n: usize) {
        let high: u64 = (*self / 0x1_0000_0000_0000_0000u128) as u64;
        let low: u64 = (*self % 0x1_0000_0000_0000_0000u128) as u64;
        varint_len(high) + varint_len(low)
    }

    proof fn lemma_decode_encoding(&self, rest: Seq<u8>) {
        let high = ((*self as nat) / two64()) as u64;
        let low = ((*self as nat) % two64()) as u64;
        let hb = varint_bytes(high as nat);
        let lb = varint_bytes(low as nat);
        assert(hb + lb + rest =~= hb + (lb + rest));
        lemma_varint_roundtrip(high, lb + rest);
        assert((hb + lb + rest).skip(hb.len() as int) =~= lb + rest);
        lemma_varint_roundtrip(low, rest);
    }
}

impl Canon for i128 {
    type Model = i128;

    open spec fn model(&self) -> i128 {
        *self
    }

    open spec fn can_encode(&self) -> bool {
        true
    }

    /// The zigzag image, encoded as a `u128`.
    open spec fn spec_encoding(m: i128) -> Seq<u8> {
        <u128 as Canon>::spec_encoding(zigzag(m as int) as u128)
    }

    open spec fn spec_decoding(bytes: Seq<u8>) -> Decoded<i128> {
        <u128 as Canon>::spec_decoding(bytes).map(|u: u128| unzigzag(u as nat) as i128)
    }

    fn encode(&self, sink: &mut Sink) {
        zigzag_encode(*self).encode(sink)
    }

    fn decode(source: &mut Source) -> (r: Result<Self, CanonError>) {
        match u128::decode(source) {
            Ok(u) => Ok(zigzag_decode(u)),
            Err(e) => Err(e),
        }
    }

    fn encoded_len(&self) -> (n: usize) {
        zigzag_encode(*self).encoded_len()
    }

    proof fn lemma_decode_encoding(&self, rest: Seq<u8>) {
        lemma_unzigzag_zigzag(*self as int);
        let u = zigzag(*self as int) as u128;
        u.lemma_decode_encoding(rest);
    }
}

} // verus!
