//! Message formatting for debug output sent to the host.
use vstd::prelude::*;
use vstd::string::StringSliceAdditionalSpecFns;
use vstd::utf8::{decode_utf8, valid_utf8};

verus! {

/// The number of bytes a debug message can hold.
pub const DEBUG_MSG_BYTES: usize = 16384;

/// A debug message, written into a fixed size buffer.
pub struct DebugMsg {
    ofs: usize,
    buf: [u8; 16384],
}

impl DebugMsg {
    /// The bytes written so far.
    pub closed spec fn message(&self) -> Seq<u8> {
        self.buf@.take(self.ofs as int)
    }

    /// The message fits in the buffer, and is text: valid UTF-8.
    pub closed spec fn wf(&self) -> bool {
        &&& self.ofs <= 16384
        &&& valid_utf8(self.buf@.take(self.ofs as int))
    }

    /// An empty message.
    pub fn new() -> (m: Self)
        ensures
            m.wf(),
            m.message() == Seq::<u8>::empty(),
    {
        let m = DebugMsg { ofs: 0, buf: [0u8; 16384] };
        assert(m.message() =~= Seq::<u8>::empty());
        assert(valid_utf8(Seq::<u8>::empty()));
        m
    }

    /// The bytes of the message.
    pub fn bytes(&self) -> (b: &[u8])
        requires
            self.wf(),
        ensures
            b@ == self.message(),
    {
        &self.buf.as_slice()[0..self.ofs]
    }

    /// Appends the UTF-8 bytes of `s` to the message.
    pub fn write_str(&mut self, s: &str)
        requires
            old(self).wf(),
            old(self).message().len() + s.spec_bytes().len() <= DEBUG_MSG_BYTES,
        ensures
            final(self).wf(),
            final(self).message() == old(self).message() + s.spec_bytes(),
    {
        let bytes = s.as_bytes();
        let len = bytes.len();
        let mut i: usize = 0;
        while i < len
            invariant
                i <= len,
                len == bytes@.len(),
                old(self).ofs + len <= 16384,
                self.ofs == old(self).ofs + i,
                self.buf@.len() == 16384,
                self.buf@.take(self.ofs as int) == old(self).message() + bytes@.take(i as int),
            decreases len - i,
        {
            let ghost before = self.buf@;
            self.buf[self.ofs] = bytes[i];
            self.ofs = self.ofs + 1;
            i = i + 1;
            assert(self.buf@.take(self.ofs as int) =~= before.take(self.ofs - 1).push(
                bytes@[i - 1],
            ));
            assert(bytes@.take(i as int) =~= bytes@.take(i - 1).push(bytes@[i - 1]));
        }
        assert(bytes@.take(i as int) =~= bytes@);
        proof {
            vstd::utf8::encode_utf8_valid_utf8(s@);
            vstd::utf8::valid_utf8_concat(old(self).message(), s.spec_bytes());
        }
    }

    /// The message as text.
    pub fn as_str(&self) -> (s: &str)
        requires
            self.wf(),
        ensures
            s@ == decode_utf8(self.message()),
    {
        match str_from_utf8(self.bytes()) {
            Some(s) => s,
            None => vstd::pervasive::unreached(),
        }
    }
}

/// `std::str::from_utf8`: the text whose UTF-8 encoding is `bytes`, or
/// nothing when `bytes` is not valid UTF-8.
#[verifier::external_body]
fn str_from_utf8(bytes: &[u8]) -> (r: Option<&str>)
    ensures
        r is Some <==> valid_utf8(bytes@),
        r matches Some(s) ==> s@ == decode_utf8(bytes@),
{
    std::str::from_utf8(bytes).ok()
}

} // verus!
