//! Identifiers of values: the length of a value's encoding, and either the
//! encoding itself (when it fits in 32 bytes) or the hash it is stored under.
use crate::canon::{Canon, CanonError, Decoded, EncodeToVec};
use crate::hash_store::{blake2b_256, Store};
use crate::store::{lemma_write_twice, Sink, Source};
use vstd::prelude::*;

verus! {

/// The version of the identifier format.
const VERSION: u8 = 0;

/// The number of bytes of a hash, and of the payload of an identifier.
pub const HASH_BYTES: usize = 32;

/// A hash identifiying some data
pub type IdHash = [u8; 32];

/// 32 zero bytes following `bytes`, cut to 32 bytes: how a short encoding
/// sits in the payload of an identifier.
pub open spec fn padded(bytes: Seq<u8>) -> Seq<u8> {
    bytes + Seq::new((32 - bytes.len()) as nat, |i: int| 0u8)
}

/// The identifier (length, payload) of a value whose encoding is `bytes`:
/// encodings of at most 32 bytes are inlined, longer ones are hashed.
pub open spec fn id_of_bytes(bytes: Seq<u8>) -> (u32, Seq<u8>) {
    if bytes.len() <= 32 {
        (bytes.len() as u32, padded(bytes))
    } else {
        (bytes.len() as u32, blake2b_256(bytes)@)
    }
}

/// The store after making an identifier for `bytes`: longer encodings are
/// put under their hash, inlined ones leave it as it was.
pub open spec fn store_after_id(store: Map<Seq<u8>, Seq<u8>>, bytes: Seq<u8>) -> Map<Seq<u8>, Seq<u8>> {
    if bytes.len() <= 32 {
        store
    } else {
        store.insert(blake2b_256(bytes)@, bytes)
    }
}

/// The bytes that an identifier stands for, given what the store holds:
/// the inlined bytes, or what is stored under the hash, if anything.
pub open spec fn id_target(id: (u32, Seq<u8>), store: Map<Seq<u8>, Seq<u8>>) -> Option<Seq<u8>> {
    if id.0 <= 32 {
        Some(id.1.take(id.0 as int))
    } else if store.contains_key(id.1) {
        Some(store[id.1])
    } else {
        None
    }
}

/// This is the Id type, that uniquely identifies slices of bytes,
/// in rust equivalent to `&[u8]`. As in the case with `&[u8]` the length is
/// also encoded in the type, making it a kind of a fat-pointer for content
/// addressed byte-slices.
///
/// If the length of the byteslice is less than or equal to 32 bytes, the bytes
/// are stored directly inline in the payload, the trailing bytes set to zero.
///
/// The length of the byte-string is encoded in the first two bytes in big
/// endian, followed by the inlined bytes, or by the 32 bytes of the hash. Two
/// bytes hold lengths below 65536; of a longer length they hold the low 16
/// bits.
#[derive(Hash, PartialEq, Eq, Default, Clone, Copy, PartialOrd, Ord, Debug)]
pub struct Id {
    version: u8,
    len: u32,
    payload: IdHash,
}

impl View for Id {
    type V = (u32, Seq<u8>);

    /// The length of the data, and the 32 bytes of payload.
    closed spec fn view(&self) -> (u32, Seq<u8>) {
        (self.len, self.payload@)
    }
}

impl Id {
    /// Every identifier is of the current version.
    #[verifier::type_invariant]
    spec fn current_version(&self) -> bool {
        self.version == VERSION
    }

    /// The payload of an identifier is 32 bytes long.
    pub proof fn lemma_payload_len(&self)
        ensures
            self@.1.len() == 32,
    {
    }

    /// The hash of the data: the payload, or the hash of an inlined payload.
    pub open spec fn spec_hash(&self) -> Seq<u8> {
        if self@.0 > 32 {
            self@.1
        } else {
            blake2b_256(self@.1.take(self@.0 as int))@
        }
    }

    /// Creates a new Id from a type
    pub fn new<T: Canon>(store: &mut Store, t: &T) -> (id: Self)
        requires
            t.can_encode(),
            T::spec_encoding(t.model()).len() <= usize::MAX,
        ensures
            id@ == id_of_bytes(T::spec_encoding(t.model())),
            final(store)@ == store_after_id(old(store)@, T::spec_encoding(t.model())),
    {
        let bytes = t.encode_to_vec();
        let len = bytes.len();
        let payload = if len > HASH_BYTES {
            store.put(bytes.as_slice())
        } else {
            inline_payload(bytes.as_slice())
        };
        Id { version: VERSION, len: len as u32, payload }
    }

    /// Computes the Id of a value without putting anything into a store.
    pub fn ident<T: Canon>(t: &T) -> (id: Self)
        requires
            t.can_encode(),
            T::spec_encoding(t.model()).len() <= usize::MAX,
        ensures
            id@ == id_of_bytes(T::spec_encoding(t.model())),
    {
        let bytes = t.encode_to_vec();
        Id::of_encoding(bytes.as_slice())
    }

    /// The Id of a value whose encoding is `bytes`, computed without putting
    /// anything into a store.
    pub fn of_encoding(bytes: &[u8]) -> (id: Self)
        ensures
            id@ == id_of_bytes(bytes@),
    {
        let len = bytes.len();
        let payload = if len > HASH_BYTES {
            Store::hash(bytes)
        } else {
            inline_payload(bytes)
        };
        Id { version: VERSION, len: len as u32, payload }
    }

    /// Creates a new Id from raw data
    pub fn raw(hash: [u8; 32], len: u32) -> (id: Self)
        ensures
            id@ == (len, hash@),
    {
        Id { version: VERSION, len, payload: hash }
    }

    /// Returns the computed hash of the value.
    ///
    /// Note that this is different from the payload itself in case of an
    /// inlined value, that normally does not get hashed.
    ///
    /// Useful for giving a well-distributed unique id for all `Canon` types,
    /// for use in hash maps for example.
    pub fn hash(&self) -> (h: IdHash)
        ensures
            h@ == self.spec_hash(),
    {
        if self.len as usize > HASH_BYTES {
            self.payload
        } else {
            Store::hash(&self.payload[0..self.len as usize])
        }
    }

    /// Returns the length of the represented data
    pub fn size(&self) -> (n: usize)
        ensures
            n == self@.0,
    {
        self.len as usize
    }

    /// Attempts to reify the Id as an instance of type `T`
    pub fn reify<T: Canon>(&self, store: &Store) -> (r: Result<T, CanonError>)
        requires
            self@.0 > 32 && store@.contains_key(self@.1) ==> store@[self@.1].len() == self@.0,
            id_target(self@, store@) matches Some(b) ==> T::spec_decoding(b).in_bounds(),
        ensures
            match id_target(self@, store@) {
                None => r == Err::<T, CanonError>(CanonError::NotFound),
                Some(b) => match T::spec_decoding(b) {
                    Decoded::Value(m, _) => r is Ok && r->Ok_0.model() == m,
                    Decoded::Invalid => r == Err::<T, CanonError>(CanonError::InvalidEncoding),
                    Decoded::Short => false,
                },
            },
    {
        let len = self.size();
        if len > HASH_BYTES {
            let mut buf: Vec<u8> = Vec::with_capacity(len);
            let mut i: usize = 0;
            while i < len
                invariant
                    i <= len,
                    buf@.len() == i,
                decreases len - i,
            {
                buf.push(0u8);
                i = i + 1;
            }
            match store.get(&self.payload, buf.as_mut_slice()) {
                Ok(()) => {},
                Err(e) => return Err(e),
            }
            let mut source = Source::new(buf.as_slice());
            T::decode(&mut source)
        } else {
            let mut source = Source::new(&self.payload[0..len]);
            T::decode(&mut source)
        }
    }

    /// Takes the bytes corresponding to this id out of the underlying store.
    ///
    /// If the Id is inlined, this is a no-op and returns `Ok(None)`
    pub fn take_bytes(&self, store: &mut Store) -> (r: Result<Option<Vec<u8>>, CanonError>)
        ensures
            self@.0 <= 32 ==> r == Ok::<Option<Vec<u8>>, CanonError>(None) && final(store)@ == old(
                store,
            )@,
            self@.0 > 32 ==> {
                let h = self@.1;
                &&& !old(store)@.contains_key(h) ==> r == Err::<Option<Vec<u8>>, CanonError>(
                    CanonError::NotFound,
                ) && final(store)@ == old(store)@
                &&& old(store)@.contains_key(h) ==> final(store)@ == old(store)@.remove(h)
                &&& old(store)@.contains_key(h) && old(store)@[h].len() == self@.0 ==> (r matches Ok(
                    Some(v),
                ) && v@ == old(store)@[h])
                &&& old(store)@.contains_key(h) && old(store)@[h].len() != self@.0 ==> r == Err::<
                    Option<Vec<u8>>,
                    CanonError,
                >(CanonError::InvalidEncoding)
            },
    {
        if self.size() > HASH_BYTES {
            match store.take_bytes(self) {
                Ok(v) => Ok(Some(v)),
                Err(e) => Err(e),
            }
        } else {
            Ok(None)
        }
    }

    /// The identifier fuzzing draws from arbitrary `bytes` and a coin: the Id
    /// of the bytes, extended by their own hash when `extend` is set, so that
    /// the value is too long to be inlined.
    pub fn from_noise(store: &mut Store, bytes: Vec<u8>, extend: bool) -> (id: Self)
        requires
            bytes@.len() + 42 <= usize::MAX,
        ensures
            id@ == id_of_bytes(<Vec<u8> as Canon>::spec_encoding(noise_bytes(bytes@, extend))),
            final(store)@ == store_after_id(
                old(store)@,
                <Vec<u8> as Canon>::spec_encoding(noise_bytes(bytes@, extend)),
            ),
    {
        let mut bytes = bytes;
        if extend {
            let junk = Store::hash(bytes.as_slice());
            let mut i: usize = 0;
            let ghost b0 = bytes@;
            while i < 32
                invariant
                    i <= 32,
                    bytes@ == b0 + junk@.take(i as int),
                    junk@ == blake2b_256(b0)@,
                    junk@.len() == 32,
                decreases 32 - i,
            {
                bytes.push(junk[i]);
                i = i + 1;
                assert(bytes@ =~= b0 + junk@.take(i as int));
            }
            assert(junk@.take(32) =~= junk@);
        }
        proof {
            assert(crate::implementations::models(bytes@) =~= bytes@);
            crate::implementations::lemma_encode_all_bytes(bytes@);
            crate::varint::lemma_varint_roundtrip(bytes@.len() as u64, Seq::empty());
        }
        Id::new(store, &bytes)
    }
}

/// The bytes fuzzing makes an identifier of: `bytes`, followed by their hash
/// when `extend` is set.
pub open spec fn noise_bytes(bytes: Seq<u8>, extend: bool) -> Seq<u8> {
    if extend {
        bytes + blake2b_256(bytes)@
    } else {
        bytes
    }
}

/// The number of payload bytes written after a length `l`: the inlined
/// bytes themselves, or the 32 bytes of a hash.
pub open spec fn payload_len(l: u16) -> nat {
    if l <= 32 {
        l as nat
    } else {
        32
    }
}

/// An identifier as it is written: its length in two bytes (the low 16 bits
/// of the length), and the payload bytes that length calls for.
pub open spec fn written_id(id: (u32, Seq<u8>)) -> (u16, Seq<u8>) {
    let l = (id.0 % 0x10000) as u16;
    (l, id.1.take(payload_len(l) as int))
}

/// Two bytes holding `l`, big endian.
pub open spec fn be16(l: u16) -> Seq<u8> {
    seq![(l / 256) as u8, (l % 256) as u8]
}

impl Canon for Id {
    type Model = (u16, Seq<u8>);

    open spec fn model(&self) -> (u16, Seq<u8>) {
        written_id(self@)
    }

    open spec fn can_encode(&self) -> bool {
        true
    }

    /// The length in the first two bytes, big endian, then the inlined bytes
    /// or the 32 bytes of the hash.
    open spec fn spec_encoding(m: (u16, Seq<u8>)) -> Seq<u8> {
        be16(m.0) + m.1
    }

    open spec fn spec_decoding(bytes: Seq<u8>) -> Decoded<(u16, Seq<u8>)> {
        if bytes.len() < 2 {
            Decoded::Short
        } else {
            let l = (bytes[0] * 256 + bytes[1]) as u16;
            let n = payload_len(l);
            if bytes.len() < 2 + n {
                Decoded::Short
            } else {
                Decoded::Value((l, bytes.subrange(2, 2 + n as int)), 2 + n)
            }
        }
    }

    fn encode(&self, sink: &mut Sink) {
        proof {
            use_type_invariant(self);
        }
        let ghost b = sink.bytes@;
        let ghost o = sink.offset as int;
        let l: u16 = (self.len % 0x10000) as u16;
        let head: [u8; 2] = [(l / 256) as u8, (l % 256) as u8];
        assert(head@ =~= be16(l));
        sink.copy_bytes(&head);
        let n: usize = if l <= 32 {
            l as usize
        } else {
            HASH_BYTES
        };
        let tail = &self.payload.as_slice()[0..n];
        assert(tail@ =~= self.payload@.take(n as int));
        sink.copy_bytes(tail);
        proof {
            lemma_write_twice(b, o, be16(l), tail@);
        }
    }

    fn decode(source: &mut Source) -> (r: Result<Self, CanonError>)
        ensures
            r matches Ok(id) ==> Self::spec_decoding(old(source).remaining()) matches Decoded::Value(
                w,
                _,
            ) && id@ == id_of_written(w),
    {
        let ghost rest = source.remaining();
        let head = source.read_bytes(2);
        let l: u16 = (head[0] as u16) * 256 + head[1] as u16;
        let ghost rest2 = source.remaining();
        let n: usize = if l <= 32 {
            l as usize
        } else {
            HASH_BYTES
        };
        let bytes = source.read_bytes(n);
        let payload = if l <= 32 {
            inline_payload(bytes)
        } else {
            let mut payload: IdHash = [0u8; 32];
            copy_array(&mut payload, bytes);
            payload
        };
        proof {
            assert(rest2 =~= rest.skip(2));
            assert(bytes@ =~= rest.subrange(2, 2 + n as int));
            assert(rest2.skip(n as int) =~= rest.skip(2 + n as int));
            assert(payload@.take(n as int) =~= bytes@);
        }
        Ok(Id { version: VERSION, len: l as u32, payload })
    }

    fn encoded_len(&self) -> (n: usize) {
        let l: u16 = (self.len % 0x10000) as u16;
        if l <= 32 {
            2 + l as usize
        } else {
            2 + HASH_BYTES
        }
    }

    proof fn lemma_decode_encoding(&self, rest: Seq<u8>) {
        lemma_id_roundtrip(self.model(), rest);
    }
}

/// The identifier read back from what was written: the length, and the
/// inlined bytes followed by zeros, or the 32 bytes of the hash.
pub open spec fn id_of_written(w: (u16, Seq<u8>)) -> (u32, Seq<u8>) {
    if w.0 <= 32 {
        (w.0 as u32, padded(w.1))
    } else {
        (w.0 as u32, w.1)
    }
}

/// An identifier that its encoding gives back whole: its length fits the
/// two bytes it is written in, and an inlined payload is zero past the
/// length.
pub open spec fn round_trips(id: (u32, Seq<u8>)) -> bool {
    &&& id.0 < 0x10000
    &&& id.1.len() == 32
    &&& id.0 <= 32 ==> id.1 == padded(id.1.take(id.0 as int))
}

/// Decoding the encoding of an identifier, followed by anything, gives the
/// identifier back, when its length fits two bytes and an inlined payload is
/// zero past the length.
pub proof fn lemma_id_encoding_roundtrip(id: Id, rest: Seq<u8>)
    requires
        round_trips(id@),
    ensures
        <Id as Canon>::spec_decoding(<Id as Canon>::spec_encoding(id.model()) + rest)
            matches Decoded::Value(w, n) && id_of_written(w) == id@ && n == <Id as Canon>::spec_encoding(
            id.model(),
        ).len(),
{
    id.lemma_decode_encoding(rest);
    let v = id@;
    let w = written_id(v);
    assert(v.0 % 0x10000 == v.0);
    if v.0 > 32 {
        assert(v.1.take(32) =~= v.1);
    }
}

/// The identifiers `Id::new`, `Id::ident` and `Id::of_encoding` make of an
/// encoding shorter than 65536 bytes round trip through their encoding.
pub proof fn lemma_made_ids_round_trip(bytes: Seq<u8>)
    requires
        bytes.len() < 0x10000,
    ensures
        round_trips(id_of_bytes(bytes)),
{
    if bytes.len() <= 32 {
        assert(padded(bytes).take(bytes.len() as int) =~= bytes);
    }
}

/// Decoding an identifier as written (its length in two bytes, then the
/// payload bytes that length calls for), followed by anything, gives it back.
pub proof fn lemma_id_roundtrip(m: (u16, Seq<u8>), rest: Seq<u8>)
    requires
        m.1.len() == payload_len(m.0),
    ensures
        <Id as Canon>::spec_decoding(<Id as Canon>::spec_encoding(m) + rest) == Decoded::Value(
            m,
            <Id as Canon>::spec_encoding(m).len(),
        ),
{
    let all = be16(m.0) + m.1 + rest;
    assert(all[0] == (m.0 / 256) as u8);
    assert(all[1] == (m.0 % 256) as u8);
    assert(((m.0 / 256) as u8) * 256 + ((m.0 % 256) as u8) == m.0);
    assert(all.subrange(2, 2 + m.1.len() as int) =~= m.1);
    assert(<Id as Canon>::spec_encoding(m) + rest =~= all);
}

/// What an identifier is made for is what reifying it gives back: after
/// `Id::new` of a value `t`, in the store as it then is, the identifier
/// stands for the encoding of `t`, which decodes to `t`.
pub proof fn lemma_reify_new<T: Canon>(t: T, store: Map<Seq<u8>, Seq<u8>>)
    requires
        T::spec_encoding(t.model()).len() <= u32::MAX,
    ensures
        ({
            let e = T::spec_encoding(t.model());
            let id = id_of_bytes(e);
            let s = store_after_id(store, e);
            &&& id_target(id, s) == Some(e)
            &&& id.0 > 32 ==> s[id.1].len() == id.0
            &&& T::spec_decoding(e) == Decoded::Value(t.model(), e.len())
        }),
{
    let e = T::spec_encoding(t.model());
    assert(padded(e).take(e.len() as int) =~= e);
    t.lemma_decode_encoding(Seq::empty());
    assert(e + Seq::<u8>::empty() =~= e);
}

/// Identifiers of values that fit inline determine the values: two values
/// with the same inline identifier have the same model.
pub proof fn lemma_inline_id_determines_value<T: Canon>(a: T, b: T)
    requires
        T::spec_encoding(a.model()).len() <= 32,
        T::spec_encoding(b.model()).len() <= 32,
        id_of_bytes(T::spec_encoding(a.model())) == id_of_bytes(T::spec_encoding(b.model())),
    ensures
        a.model() == b.model(),
{
    let ea = T::spec_encoding(a.model());
    let eb = T::spec_encoding(b.model());
    assert(padded(ea).take(ea.len() as int) =~= ea);
    assert(padded(eb).take(eb.len() as int) =~= eb);
    assert(ea == eb);
    a.lemma_decode_encoding(Seq::empty());
    b.lemma_decode_encoding(Seq::empty());
    assert(ea + Seq::<u8>::empty() =~= ea);
    assert(eb + Seq::<u8>::empty() =~= eb);
}

/// At most 32 bytes, followed by zeros.
fn inline_payload(bytes: &[u8]) -> (payload: IdHash)
    requires
        bytes@.len() <= 32,
    ensures
        payload@ == padded(bytes@),
{
    let len = bytes.len();
    let mut payload: IdHash = [0u8; 32];
    proof {
        vstd::array::axiom_spec_array_fill_for_copy_type::<u8, 32>(0u8);
        vstd::array::array_len_matches_n(&payload);
    }
    let mut i: usize = 0;
    while i < len
        invariant
            i <= len <= 32,
            len == bytes@.len(),
            payload@.len() == 32,
            forall|j: int| 0 <= j < i ==> payload@[j] == bytes@[j],
            forall|j: int| i <= j < 32 ==> payload@[j] == 0u8,
        decreases len - i,
    {
        payload[i] = bytes[i];
        i = i + 1;
    }
    assert(payload@ =~= padded(bytes@));
    payload
}

/// Copies 32 bytes into an identifier payload.
pub(crate) fn copy_array(dst: &mut IdHash, src: &[u8])
    requires
        src@.len() == 32,
    ensures
        final(dst)@ == src@,
{
    let mut i: usize = 0;
    while i < 32
        invariant
            i <= 32,
            src@.len() == 32,
            dst@.len() == 32,
            forall|j: int| 0 <= j < i ==> dst@[j] == src@[j],
        decreases 32 - i,
    {
        dst[i] = src[i];
        i = i + 1;
    }
    assert(dst@ =~= src@);
}

} // verus!
