//! Variable length integers: seven bits per byte, least significant group
//! first, the high bit of a byte set when more bytes follow; and the zigzag
//! mapping of signed integers onto unsigned ones.
use crate::canon::{CanonError, Decoded};
use crate::store::{Sink, Source};
use dusk_varint::VarInt;
use vstd::prelude::*;

verus! {

/// The bytes of the variable length encoding of `v`.
pub open spec fn varint_bytes(v: nat) -> Seq<u8>
    decreases v,
{
    if v < 128 {
        seq![v as u8]
    } else {
        seq![(v % 128 + 128) as u8] + varint_bytes(v / 128)
    }
}

/// The number of leading bytes that have their high bit set.
pub open spec fn continuation_count(bytes: Seq<u8>) -> nat
    decreases bytes.len(),
{
    if bytes.len() == 0 || bytes[0] < 128 {
        0
    } else {
        1 + continuation_count(bytes.drop_first())
    }
}

/// The number made of the low seven bits of the first `k` bytes, least
/// significant group first.
pub open spec fn groups_value(bytes: Seq<u8>, k: nat) -> nat
    decreases k,
{
    if k == 0 || bytes.len() == 0 {
        0
    } else {
        (bytes[0] % 128) as nat + 128 * groups_value(bytes.drop_first(), (k - 1) as nat)
    }
}

/// 128 to the power `k`.
pub open spec fn pow128(k: nat) -> nat
    decreases k,
{
    if k == 0 {
        1
    } else {
        128 * pow128((k - 1) as nat)
    }
}

/// 2 to the power 64.
pub open spec fn two64() -> nat {
    0x1_0000_0000_0000_0000
}

/// What reading a variable length integer from the front of `bytes` gives:
/// the terminating byte is the first one with its high bit clear; more than
/// ten bytes are refused, and the value is taken modulo 2^64.
pub open spec fn varint_decoding(bytes: Seq<u8>) -> Decoded<u64> {
    let c = continuation_count(bytes);
    if c >= bytes.len() {
        Decoded::Short
    } else if c >= 10 {
        Decoded::Invalid
    } else {
        Decoded::Value((groups_value(bytes, c + 1) % two64()) as u64, c + 1)
    }
}

/// The zigzag mapping: 0, -1, 1, -2, 2 ... to 0, 1, 2, 3, 4 ...
pub open spec fn zigzag(v: int) -> nat {
    if v >= 0 {
        (2 * v) as nat
    } else {
        (-2 * v - 1) as nat
    }
}

/// The inverse of the zigzag mapping.
pub open spec fn unzigzag(u: nat) -> int {
    if u % 2 == 0 {
        (u / 2) as int
    } else {
        -((u / 2) as int) - 1
    }
}

pub proof fn lemma_pow128_facts(k: nat)
    ensures
        pow128(k) >= 1,
        k <= 10 ==> pow128(k) <= pow128(10),
        pow128(10) == 0x40_0000_0000_0000_0000,
    decreases k,
{
    reveal_with_fuel(pow128, 11);
    if k > 0 {
        lemma_pow128_facts((k - 1) as nat);
    }
    if k <= 10 {
        lemma_pow128_mono(k, 10);
    }
}

proof fn lemma_pow128_mono(a: nat, b: nat)
    requires
        a <= b,
    ensures
        pow128(a) <= pow128(b),
    decreases b,
{
    if a < b {
        lemma_pow128_mono(a, (b - 1) as nat);
        lemma_pow128_pos((b - 1) as nat);
    }
}

proof fn lemma_pow128_pos(k: nat)
    ensures
        pow128(k) >= 1,
    decreases k,
{
    if k > 0 {
        lemma_pow128_pos((k - 1) as nat);
    }
}

/// The encoding of a value below 128^k takes at most k bytes, and at least one.
pub proof fn lemma_varint_len(v: nat, k: nat)
    requires
        v < pow128(k),
        k >= 1,
    ensures
        1 <= varint_bytes(v).len() <= k,
    decreases v,
{
    if v >= 128 {
        reveal_with_fuel(pow128, 2);
        assert(k > 1);
        assert(v / 128 < pow128((k - 1) as nat));
        lemma_varint_len(v / 128, (k - 1) as nat);
    }
}

/// Reading back the encoding of `v`, followed by anything, finds its end and its value.
pub proof fn lemma_varint_bytes_read(v: nat, rest: Seq<u8>)
    ensures
        continuation_count(varint_bytes(v) + rest) + 1 == varint_bytes(v).len(),
        groups_value(varint_bytes(v) + rest, varint_bytes(v).len()) == v,
    decreases v,
{
    let s = varint_bytes(v) + rest;
    if v < 128 {
        assert(s[0] == v as u8);
        assert(s.drop_first() =~= rest);
        reveal_with_fuel(groups_value, 2);
    } else {
        lemma_varint_bytes_read(v / 128, rest);
        assert(s.drop_first() =~= varint_bytes(v / 128) + rest);
        assert(s[0] == (v % 128 + 128) as u8);
    }
}

/// Decoding the encoding of a 64 bit value gives it back.
pub proof fn lemma_varint_roundtrip(v: u64, rest: Seq<u8>)
    ensures
        varint_bytes(v as nat).len() <= 10,
        varint_decoding(varint_bytes(v as nat) + rest) == Decoded::Value(
            v,
            varint_bytes(v as nat).len(),
        ),
{
    lemma_pow128_facts(10);
    lemma_varint_len(v as nat, 10);
    lemma_varint_bytes_read(v as nat, rest);
    let s = varint_bytes(v as nat) + rest;
    let c = continuation_count(s);
    assert(c + 1 == varint_bytes(v as nat).len());
    assert(c < s.len());
    assert(groups_value(s, c + 1) == v as nat);
    assert((v as nat) % two64() == v as nat);
}

/// The first `k` groups only depend on the first `k` bytes.
proof fn lemma_groups_prefix(s: Seq<u8>, k: nat)
    requires
        k <= s.len(),
    ensures
        groups_value(s.take(k as int), k) == groups_value(s, k),
    decreases k,
{
    if k > 0 {
        assert(s.take(k as int).drop_first() =~= s.drop_first().take(k - 1));
        lemma_groups_prefix(s.drop_first(), (k - 1) as nat);
    }
}

proof fn lemma_groups_bound(s: Seq<u8>, k: nat)
    ensures
        groups_value(s, k) < pow128(k),
    decreases k,
{
    if k > 0 && s.len() > 0 {
        lemma_groups_bound(s.drop_first(), (k - 1) as nat);
    } else if k > 0 {
        lemma_pow128_pos(k);
    }
}

/// Counting the leading continuation bytes one by one.
proof fn lemma_count_prefix(s: Seq<u8>, c: nat)
    requires
        c <= s.len(),
        forall|j: int| 0 <= j < c ==> s[j] >= 128,
        c < s.len() ==> s[c as int] < 128,
    ensures
        continuation_count(s) == c,
    decreases c,
{
    if c > 0 {
        lemma_count_prefix(s.drop_first(), (c - 1) as nat);
    }
}

/// The number of bytes in the encoding of `v`.
pub fn varint_len(v: u64) -> (n: usize)
    ensures
        n == varint_bytes(v as nat).len(),
        1 <= n <= 10,
{
    proof {
        lemma_pow128_facts(10);
        lemma_varint_len(v as nat, 10);
    }
    let mut n: u64 = v;
    let mut len: usize = 1;
    while n >= 128
        invariant
            len + varint_bytes(n as nat).len() == varint_bytes(v as nat).len() + 1,
            varint_bytes(v as nat).len() <= 10,
            pow128(10) == 0x40_0000_0000_0000_0000,
            1 <= len,
        decreases n,
    {
        proof {
            lemma_varint_len(n as nat / 128, 10);
        }
        n = n / 128;
        len = len + 1;
    }
    len
}

/// Writes the encoding of `v` into the sink.
pub fn write_varint(v: u64, sink: &mut Sink)
    requires
        old(sink).wf(),
        varint_bytes(v as nat).len() <= old(sink).room(),
    ensures
        final(sink).offset == old(sink).offset + varint_bytes(v as nat).len(),
        final(sink).bytes@ == old(sink).written() + varint_bytes(v as nat) + old(
            sink,
        ).bytes@.skip(old(sink).offset + varint_bytes(v as nat).len()),
        final(final(sink).bytes)@ == final(old(sink).bytes)@,
{
    proof {
        lemma_pow128_facts(10);
        lemma_varint_len(v as nat, 10);
    }
    let mut buf: Vec<u8> = Vec::new();
    let mut n: u64 = v;
    while n >= 128
        invariant
            buf@ + varint_bytes(n as nat) == varint_bytes(v as nat),
            buf@.len() < 10,
            varint_bytes(v as nat).len() <= 10,
            pow128(10) == 0x40_0000_0000_0000_0000,
        decreases n,
    {
        proof {
            lemma_varint_len(n as nat / 128, 10);
        }
        let b: u8 = (n % 128 + 128) as u8;
        buf.push(b);
        n = n / 128;
        assert(buf@ + varint_bytes(n as nat) =~= varint_bytes(v as nat));
    }
    buf.push(n as u8);
    assert(buf@ =~= varint_bytes(v as nat));
    sink.copy_bytes(buf.as_slice());
}

/// Reads a variable length integer from the source.
pub fn read_varint(source: &mut Source) -> (r: Result<u64, CanonError>)
    requires
        old(source).wf(),
        varint_decoding(old(source).remaining()).in_bounds(),
    ensures
        final(source).buffer() == old(source).buffer(),
        final(source).wf(),
        match varint_decoding(old(source).remaining()) {
            Decoded::Value(v, n) => {
                &&& r == Ok::<u64, CanonError>(v)
                &&& n <= old(source).remaining().len()
                &&& final(source).remaining() == old(source).remaining().skip(n as int)
            },
            Decoded::Invalid => r == Err::<u64, CanonError>(CanonError::InvalidEncoding),
            Decoded::Short => false,
        },
{
    let ghost rest = source.remaining();
    let count = count_continuation(source.peek_remaining());
    proof {
        lemma_count_prefix(rest, count as nat);
    }
    let bytes = source.read_bytes(count + 1);
    proof {
        lemma_count_prefix(bytes@, count as nat);
        lemma_groups_prefix(rest, (count + 1) as nat);
        assert(bytes@ =~= rest.take(count + 1));
    }
    match decode_var_u64(bytes) {
        Some((v, _)) => Ok(v),
        None => Err(CanonError::InvalidEncoding),
    }
}

/// What `decode_var` of `dusk_varint` gives for `u64` on `src`: it reads up
/// to ten bytes, seven low bits each, least significant group first, and
/// stops at the first byte with its high bit clear; that byte must come
/// within the first ten and within `src`. The value is the groups modulo
/// 2^64, with the number of bytes read.
pub open spec fn decode_var_result(src: Seq<u8>) -> Option<(u64, usize)> {
    let c = continuation_count(src);
    if c >= 10 || c >= src.len() {
        None
    } else {
        Some(((groups_value(src, c + 1) % two64()) as u64, (c + 1) as usize))
    }
}

/// `<u64 as dusk_varint::VarInt>::decode_var`: the value and length of the
/// variable length integer at the front of `src`, as `decode_var_result`
/// states, or nothing when no terminating byte comes within ten bytes.
#[verifier::external_body]
fn decode_var_u64(src: &[u8]) -> (r: Option<(u64, usize)>)
    ensures
        r == decode_var_result(src@),
{
    u64::decode_var(src)
}

/// Counts the leading bytes with their high bit set.
fn count_continuation(bytes: &[u8]) -> (c: usize)
    ensures
        c <= bytes@.len(),
        bytes@.len() <= usize::MAX,
        forall|j: int| 0 <= j < c ==> bytes@[j] >= 128,
        c < bytes@.len() ==> bytes@[c as int] < 128,
{
    let _len = bytes.len();
    let mut c: usize = 0;
    while c < bytes.len() && bytes[c] >= 128
        invariant
            c <= bytes@.len(),
            forall|j: int| 0 <= j < c ==> bytes@[j] >= 128,
        decreases bytes@.len() - c,
    {
        c = c + 1;
    }
    c
}

} // verus!
