//! The content addressed store: byte strings kept under their BLAKE2b hash.
use crate::canon::CanonError;
use crate::id::{Id, IdHash};
use vstd::prelude::*;

verus! {

/// The 32 byte BLAKE2b digest of `bytes`, as `blake2b_simd` computes it.
pub uninterp spec fn blake2b_256(bytes: Seq<u8>) -> [u8; 32];

/// `blake2b_simd::Params::new().hash_length(32).hash(bytes)`: the 32 byte
/// BLAKE2b digest of `bytes`, named `blake2b_256` here. Nothing more of the
/// digest is stated.
#[verifier::external_body]
fn blake2b_hash(bytes: &[u8]) -> (h: IdHash)
    ensures
        h == blake2b_256(bytes@),
{
    let hash = blake2b_simd::Params::new().hash_length(32).hash(bytes);
    let mut buf = [0u8; 32];
    buf.copy_from_slice(hash.as_bytes());
    buf
}

/// Whether two hashes are the same.
pub fn same_hash(a: &IdHash, b: &IdHash) -> (r: bool)
    ensures
        r == (a@ == b@),
{
    let mut i: usize = 0;
    while i < 32
        invariant
            i <= 32,
            a@.len() == 32,
            b@.len() == 32,
            forall|j: int| 0 <= j < i ==> a@[j] == b@[j],
        decreases 32 - i,
    {
        if a[i] != b[i] {
            return false;
        }
        i = i + 1;
    }
    assert(a@ =~= b@);
    true
}

/// Copies `src` into `dst`, which has the same length.
pub fn copy_into(dst: &mut [u8], src: &[u8])
    requires
        old(dst)@.len() == src@.len(),
    ensures
        final(dst)@ == src@,
{
    let mut i: usize = 0;
    while i < src.len()
        invariant
            i <= src@.len(),
            dst@.len() == src@.len(),
            forall|j: int| 0 <= j < i ==> dst@[j] == src@[j],
        decreases src@.len() - i,
    {
        dst[i] = src[i];
        i = i + 1;
    }
    assert(dst@ =~= src@);
}

/// What a store gives back under a hash is what was last put under it, and
/// putting bytes leaves what is kept under other hashes as it was.
pub proof fn lemma_get_after_put(store: Map<Seq<u8>, Seq<u8>>, bytes: Seq<u8>, other: Seq<u8>)
    ensures
        ({
            let h = blake2b_256(bytes)@;
            let after = store.insert(h, bytes);
            &&& after.contains_key(h)
            &&& after[h] == bytes
            &&& other != h ==> (after.contains_key(other) == store.contains_key(other))
            &&& other != h && store.contains_key(other) ==> after[other] == store[other]
        }),
{
}

/// A stored byte string and the hash it is kept under.
struct Entry {
    hash: IdHash,
    bytes: Vec<u8>,
}

/// A store of byte strings, each kept under the hash of its bytes.
pub struct Store {
    entries: Vec<Entry>,
}

impl View for Store {
    type V = Map<Seq<u8>, Seq<u8>>;

    /// The byte strings held, by the hash they are kept under.
    closed spec fn view(&self) -> Map<Seq<u8>, Seq<u8>> {
        Map::new(|k: Seq<u8>| self.holds(k), |k: Seq<u8>| self.entries@[self.index_of(k)].bytes@)
    }
}

impl Store {
    spec fn holds(&self, k: Seq<u8>) -> bool {
        exists|i: int| 0 <= i < self.entries@.len() && #[trigger] self.entries@[i].hash@ == k
    }

    spec fn index_of(&self, k: Seq<u8>) -> int {
        choose|i: int| 0 <= i < self.entries@.len() && #[trigger] self.entries@[i].hash@ == k
    }

    /// No two entries are kept under the same hash.
    #[verifier::type_invariant]
    spec fn distinct(&self) -> bool {
        forall|i: int, j: int|
            0 <= i < self.entries@.len() && 0 <= j < self.entries@.len() && i != j ==> #[trigger] self.entries@[i].hash@
                != #[trigger] self.entries@[j].hash@
    }

    proof fn lemma_at(&self, i: int)
        requires
            self.distinct(),
            0 <= i < self.entries@.len(),
        ensures
            self@.contains_key(self.entries@[i].hash@),
            self@[self.entries@[i].hash@] == self.entries@[i].bytes@,
    {
        let k = self.entries@[i].hash@;
        assert(self.holds(k));
        let j = self.index_of(k);
        assert(self.entries@[j].hash@ == k);
    }

    /// Creates an empty store.
    pub fn new() -> (s: Self)
        ensures
            s@ == Map::<Seq<u8>, Seq<u8>>::empty(),
    {
        let s = Store { entries: Vec::new() };
        assert(s@ =~= Map::<Seq<u8>, Seq<u8>>::empty());
        s
    }

    /// Where the entry kept under `hash` stands, if any.
    fn find(&self, hash: &IdHash) -> (r: Option<usize>)
        ensures
            match r {
                Some(i) => i < self.entries@.len() && self.entries@[i as int].hash@ == hash@,
                None => !self@.contains_key(hash@),
            },
    {
        let mut i: usize = 0;
        while i < self.entries.len()
            invariant
                i <= self.entries@.len(),
                forall|j: int| 0 <= j < i ==> self.entries@[j].hash@ != hash@,
            decreases self.entries@.len() - i,
        {
            if same_hash(&self.entries[i].hash, hash) {
                return Some(i);
            }
            i = i + 1;
        }
        None
    }

    /// Hash a slice of bytes
    pub fn hash(bytes: &[u8]) -> (h: IdHash)
        ensures
            h == blake2b_256(bytes@),
    {
        blake2b_hash(bytes)
    }

    /// Write the byte slice into the store and return its hash
    pub fn put(&mut self, bytes: &[u8]) -> (h: IdHash)
        ensures
            h == blake2b_256(bytes@),
            final(self)@ == old(self)@.insert(h@, bytes@),
    {
        proof {
            use_type_invariant(&*self);
        }
        let h = blake2b_hash(bytes);
        let entry = Entry { hash: h, bytes: vstd::slice::slice_to_vec(bytes) };
        match self.find(&h) {
            Some(i) => {
                let ghost old_entries = self.entries@;
                let mut entries: Vec<Entry> = Vec::new();
                std::mem::swap(&mut entries, &mut self.entries);
                entries.set(i, entry);
                self.entries = entries;
                proof {
                    assert(self.entries@ == old_entries.update(i as int, entry));
                    assert forall|k: Seq<u8>| #![auto] self@.contains_key(k) == old(self)@.insert(
                        h@,
                        bytes@,
                    ).contains_key(k) by {
                        if old(self).holds(k) {
                            let j = old(self).index_of(k);
                            assert(self.entries@[j].hash@ == k);
                        }
                        if self.holds(k) {
                            let j = self.index_of(k);
                            if j != i {
                                assert(old_entries[j].hash@ == k);
                            }
                        }
                    }
                    assert forall|k: Seq<u8>| #![auto] self@.contains_key(k) implies self@[k]
                        == old(self)@.insert(h@, bytes@)[k] by {
                        let j = self.index_of(k);
                        if k == h@ {
                            self.lemma_at(i as int);
                        } else {
                            assert(j != i);
                            assert(old_entries[j].hash@ == k);
                            old(self).lemma_at(j);
                            self.lemma_at(j);
                        }
                    }
                    assert(self@ =~= old(self)@.insert(h@, bytes@));
                }
            },
            None => {
                let ghost old_entries = self.entries@;
                let mut entries: Vec<Entry> = Vec::new();
                std::mem::swap(&mut entries, &mut self.entries);
                entries.push(entry);
                self.entries = entries;
                proof {
                    let n = old_entries.len() as int;
                    assert forall|k: Seq<u8>| #![auto] self@.contains_key(k) == old(self)@.insert(
                        h@,
                        bytes@,
                    ).contains_key(k) by {
                        if old(self).holds(k) {
                            let j = old(self).index_of(k);
                            assert(self.entries@[j].hash@ == k);
                        }
                        if k == h@ {
                            assert(self.entries@[n].hash@ == k);
                        }
                        if self.holds(k) {
                            let j = self.index_of(k);
                            if j != n {
                                assert(old_entries[j].hash@ == k);
                            }
                        }
                    }
                    assert forall|k: Seq<u8>| #![auto] self@.contains_key(k) implies self@[k]
                        == old(self)@.insert(h@, bytes@)[k] by {
                        let j = self.index_of(k);
                        if k == h@ {
                            self.lemma_at(n);
                        } else {
                            assert(j != n);
                            assert(old_entries[j].hash@ == k);
                            old(self).lemma_at(j);
                            self.lemma_at(j);
                        }
                    }
                    assert(self@ =~= old(self)@.insert(h@, bytes@));
                }
            },
        }
        h
    }

    /// The length of the bytes kept under `hash`, if any: the length of the
    /// buffer that `get` writes them to.
    pub fn stored_len(&self, hash: &IdHash) -> (r: Option<usize>)
        ensures
            match r {
                Some(n) => self@.contains_key(hash@) && self@[hash@].len() == n,
                None => !self@.contains_key(hash@),
            },
    {
        proof {
            use_type_invariant(self);
        }
        match self.find(hash) {
            Some(i) => {
                proof {
                    self.lemma_at(i as int);
                }
                Some(self.entries[i].bytes.len())
            },
            None => None,
        }
    }

    /// Get data with the corresponding hash and write it to a buffer
    ///
    /// Note that the buffer must be of the right length to accept the data
    pub fn get(&self, hash: &IdHash, write_to: &mut [u8]) -> (r: Result<(), CanonError>)
        requires
            self@.contains_key(hash@) ==> self@[hash@].len() == old(write_to)@.len(),
        ensures
            self@.contains_key(hash@) ==> r == Ok::<(), CanonError>(()) && final(write_to)@
                == self@[hash@],
            !self@.contains_key(hash@) ==> r == Err::<(), CanonError>(CanonError::NotFound)
                && final(write_to)@ == old(write_to)@,
    {
        proof {
            use_type_invariant(self);
        }
        match self.find(hash) {
            Some(i) => {
                proof {
                    self.lemma_at(i as int);
                }
                copy_into(write_to, self.entries[i].bytes.as_slice());
                Ok(())
            },
            None => Err(CanonError::NotFound),
        }
    }

    /// Takes the bytes kept for `id` out of the store.
    pub(crate) fn take_bytes(&mut self, id: &Id) -> (r: Result<Vec<u8>, CanonError>)
        ensures
            ({
                let h = id.spec_hash();
                if !old(self)@.contains_key(h) {
                    r == Err::<Vec<u8>, CanonError>(CanonError::NotFound)
                } else if old(self)@[h].len() == id@.0 {
                    r matches Ok(v) && v@ == old(self)@[h]
                } else {
                    r == Err::<Vec<u8>, CanonError>(CanonError::InvalidEncoding)
                }
            }),
            old(self)@.contains_key(id.spec_hash()) ==> final(self)@ == old(self)@.remove(
                id.spec_hash(),
            ),
            !old(self)@.contains_key(id.spec_hash()) ==> final(self)@ == old(self)@,
    {
        proof {
            use_type_invariant(&*self);
        }
        let h = id.hash();
        match self.find(&h) {
            Some(i) => {
                let ghost old_entries = self.entries@;
                proof {
                    self.lemma_at(i as int);
                }
                let mut entries: Vec<Entry> = Vec::new();
                std::mem::swap(&mut entries, &mut self.entries);
                let entry = entries.remove(i);
                self.entries = entries;
                proof {
                    assert forall|k: Seq<u8>| #![auto] self@.contains_key(k) == old(
                        self,
                    )@.remove(h@).contains_key(k) by {
                        if old(self).holds(k) && k != h@ {
                            let j = old(self).index_of(k);
                            assert(j != i);
                            if j < i {
                                assert(self.entries@[j].hash@ == k);
                            } else {
                                assert(self.entries@[j - 1].hash@ == k);
                            }
                        }
                        if self.holds(k) {
                            let j = self.index_of(k);
                            if j < i {
                                assert(old_entries[j].hash@ == k);
                            } else {
                                assert(old_entries[j + 1].hash@ == k);
                            }
                        }
                    }
                    assert forall|k: Seq<u8>| #![auto] self@.contains_key(k) implies self@[k]
                        == old(self)@.remove(h@)[k] by {
                        let j = self.index_of(k);
                        self.lemma_at(j);
                        if j < i {
                            old(self).lemma_at(j);
                        } else {
                            old(self).lemma_at(j + 1);
                        }
                    }
                    assert(self@ =~= old(self)@.remove(h@));
                }
                if id.size() == entry.bytes.len() {
                    Ok(entry.bytes)
                } else {
                    Err(CanonError::InvalidEncoding)
                }
            },
            None => Err(CanonError::NotFound),
        }
    }
}

} // verus!
