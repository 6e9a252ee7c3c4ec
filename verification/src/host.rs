//! The host side of the calls a module makes into its host: what each call
//! does to the module's memory and to the store.
use crate::canon::CanonError;
use crate::hash_store::{blake2b_256, Store};
use crate::id::{copy_array, IdHash};
use crate::signal::Signal;
use crate::store::Sink;
use vstd::prelude::*;
use vstd::utf8::{decode_utf8, valid_utf8};

verus! {

/// The characters `String::from_utf8_lossy` makes of `bytes`.
pub uninterp spec fn utf8_lossy(bytes: Seq<u8>) -> Seq<char>;

/// `String::from_utf8_lossy` of std, made an owned `String`: the text of
/// `bytes`, with each invalid sequence replaced by U+FFFD. What it makes of
/// invalid bytes is named `utf8_lossy` and not stated further; valid UTF-8
/// is decoded as it is.
#[verifier::external_body]
fn string_from_utf8_lossy(bytes: &[u8]) -> (s: String)
    ensures
        s@ == utf8_lossy(bytes@),
        valid_utf8(bytes@) ==> s@ == decode_utf8(bytes@),
{
    String::from_utf8_lossy(bytes).into_owned()
}

/// Writes `src` into `memory` at `at`.
fn write_at(memory: &mut [u8], at: usize, src: &[u8])
    requires
        at + src@.len() <= old(memory)@.len(),
    ensures
        final(memory)@ == old(memory)@.take(at as int) + src@ + old(memory)@.skip(
            at + src@.len(),
        ),
{
    let mut sink = Sink { bytes: memory, offset: at };
    sink.copy_bytes(src);
}

/// The bytes of `memory` from `ofs`, `len` of them.
pub open spec fn region(memory: Seq<u8>, ofs: int, len: int) -> Seq<u8> {
    memory.subrange(ofs, ofs + len)
}

/// The module puts `len` bytes from `ofs` of its memory into the store; the
/// host writes their hash to `ret`.
pub fn host_put(memory: &mut [u8], ofs: usize, len: usize, ret: usize, store: &mut Store)
    requires
        ofs + len <= old(memory)@.len(),
        ret + 32 <= old(memory)@.len(),
    ensures
        ({
            let bytes = region(old(memory)@, ofs as int, len as int);
            let h = blake2b_256(bytes)@;
            &&& final(store)@ == old(store)@.insert(h, bytes)
            &&& final(memory)@ == old(memory)@.take(ret as int) + h + old(memory)@.skip(
                ret + 32,
            )
        }),
{
    let _n = memory.len();
    let bytes = vstd::slice::slice_to_vec(&memory[ofs..ofs + len]);
    let h = store.put(bytes.as_slice());
    write_at(memory, ret, &h);
}

/// The module asks for the bytes kept under the hash at `hash_ofs` of its
/// memory, `len` of them, to be written to `buf_ofs`.
pub fn host_get(memory: &mut [u8], hash_ofs: usize, buf_ofs: usize, len: usize, store: &Store) -> (r:
    Result<(), CanonError>)
    requires
        hash_ofs + 32 <= old(memory)@.len(),
        buf_ofs + len <= old(memory)@.len(),
        store@.contains_key(region(old(memory)@, hash_ofs as int, 32)) ==> store@[region(
            old(memory)@,
            hash_ofs as int,
            32,
        )].len() == len,
    ensures
        ({
            let h = region(old(memory)@, hash_ofs as int, 32);
            if store@.contains_key(h) {
                &&& r == Ok::<(), CanonError>(())
                &&& final(memory)@ == old(memory)@.take(buf_ofs as int) + store@[h] + old(
                    memory,
                )@.skip(buf_ofs + len)
            } else {
                &&& r == Err::<(), CanonError>(CanonError::NotFound)
                &&& final(memory)@ == old(memory)@
            }
        }),
{
    let _n = memory.len();
    let mut hash: IdHash = [0u8; 32];
    copy_array(&mut hash, &memory[hash_ofs..hash_ofs + 32]);
    let mut buf: Vec<u8> = Vec::with_capacity(len);
    let mut i: usize = 0;
    while i < len
        invariant
            i <= len,
            buf@.len() == i,
        decreases len - i,
    {
        buf.push(0u8);
        i = i + 1;
    }
    match store.get(&hash, buf.as_mut_slice()) {
        Ok(()) => {
            write_at(memory, buf_ofs, buf.as_slice());
            Ok(())
        },
        Err(e) => Err(e),
    }
}

/// The module asks for the hash of `len` bytes from `ofs` of its memory, to
/// be written to `ret`.
pub fn host_hash(memory: &mut [u8], ofs: usize, len: usize, ret: usize)
    requires
        ofs + len <= old(memory)@.len(),
        ret + 32 <= old(memory)@.len(),
    ensures
        final(memory)@ == old(memory)@.take(ret as int) + blake2b_256(
            region(old(memory)@, ofs as int, len as int),
        )@ + old(memory)@.skip(ret + 32),
{
    let _n = memory.len();
    let h = Store::hash(&memory[ofs..ofs + len]);
    write_at(memory, ret, &h);
}

/// The text of `len` bytes from `ofs` of the module's memory, as a debug
/// message or a panic message is read.
pub fn host_message(memory: &[u8], ofs: usize, len: usize) -> (s: String)
    requires
        ofs + len <= memory@.len(),
    ensures
        s@ == utf8_lossy(region(memory@, ofs as int, len as int)),
        valid_utf8(region(memory@, ofs as int, len as int)) ==> s@ == decode_utf8(
            region(memory@, ofs as int, len as int),
        ),
{
    let _n = memory.len();
    string_from_utf8_lossy(&memory[ofs..ofs + len])
}

/// The module signals a panic, with the message of `len` bytes from `ofs`
/// of its memory.
pub fn host_signal(memory: &[u8], ofs: usize, len: usize) -> (sig: Signal)
    requires
        ofs + len <= memory@.len(),
    ensures
        sig matches Signal::Panic(m) && m@ == utf8_lossy(region(memory@, ofs as int, len as int)),
{
    Signal::Panic(host_message(memory, ofs, len))
}

} // verus!
