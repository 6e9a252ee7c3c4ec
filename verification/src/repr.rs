//! A value that is either local, or in storage behind an identifier.
use crate::canon::{Canon, CanonError, Decoded};
use crate::cow::Cow;
use crate::hash_store::Store;
use crate::id::{
    id_of_bytes, id_of_written, id_target, lemma_id_roundtrip, round_trips, store_after_id,
    written_id, Id,
};
use crate::store::{Sink, Source};
use core::ops::Deref;
use vstd::prelude::*;

verus! {

/// A Repr to a value that is either local or in storage behind an identifier
///
/// A new `Repr` holds its value. Committing it puts the value's encoding
/// into a store and keeps its identifier; a decoded `Repr` holds only the
/// identifier, and the value is read back from the store when asked for.
pub struct Repr<T> {
    value: Option<T>,
    id: Option<Id>,
}

impl<T: Canon> Repr<T> {
    /// The value held, if any.
    pub closed spec fn held(&self) -> Option<T> {
        self.value
    }

    /// The identifier kept, if any.
    pub closed spec fn kept_id(&self) -> Option<(u32, Seq<u8>)> {
        match self.id {
            Some(id) => Some(id@),
            None => None,
        }
    }

    /// A `Repr` holds a value or an identifier, and an identifier kept with
    /// a value is the identifier of that value.
    pub open spec fn wf(&self) -> bool {
        &&& (self.held() is Some || self.kept_id() is Some)
        &&& match (self.held(), self.kept_id()) {
            (Some(v), Some(i)) => i == id_of_bytes(T::spec_encoding(v.model())),
            _ => true,
        }
    }

    /// The identifier this `Repr` stands for.
    pub open spec fn spec_id(&self) -> (u32, Seq<u8>) {
        match self.kept_id() {
            Some(i) => i,
            None => match self.held() {
                Some(v) => id_of_bytes(T::spec_encoding(v.model())),
                None => id_of_bytes(Seq::empty()),
            },
        }
    }

    /// What reading the value back gives, as a model: the value held, or
    /// what the identifier's target in `store` decodes to.
    pub open spec fn read_back(&self, store: Map<Seq<u8>, Seq<u8>>) -> Result<T::Model, CanonError> {
        match self.held() {
            Some(v) => Ok(v.model()),
            None => match id_target(self.spec_id(), store) {
                None => Err(CanonError::NotFound),
                Some(b) => match T::spec_decoding(b) {
                    Decoded::Value(m, _) => Ok(m),
                    _ => Err(CanonError::InvalidEncoding),
                },
            },
        }
    }

    /// Construct a new `Repr` from value `t`
    pub fn new(t: T) -> (r: Self)
        ensures
            r.held() == Some(t),
            r.kept_id() is None,
            r.wf(),
    {
        Repr { value: Some(t), id: None }
    }

    /// Get the identifier for the `Repr`
    pub fn get_id(&self) -> (id: Id)
        requires
            self.wf(),
            self.can_encode(),
        ensures
            id@ == self.spec_id(),
    {
        match &self.id {
            Some(id) => *id,
            None => match &self.value {
                Some(v) => Id::ident(v),
                None => Id::raw([0u8; 32], 0),
            },
        }
    }

    /// Commits the value to the store: its encoding is put into the store,
    /// and its identifier kept.
    pub fn commit(&mut self, store: &mut Store) -> (r: Result<(), CanonError>)
        requires
            old(self).wf(),
            old(self).can_encode(),
        ensures
            r is Ok,
            final(self).wf(),
            final(self).held() == old(self).held(),
            final(self).spec_id() == old(self).spec_id(),
            match old(self).held() {
                Some(v) => {
                    &&& final(self).kept_id() == Some(old(self).spec_id())
                    &&& final(store)@ == store_after_id(
                        old(store)@,
                        T::spec_encoding(v.model()),
                    )
                },
                None => final(self).kept_id() == old(self).kept_id() && final(store)@ == old(
                    store,
                )@,
            },
    {
        match &self.value {
            Some(v) => {
                let id = Id::new(store, v);
                self.id = Some(id);
            },
            None => {},
        }
        Ok(())
    }

    /// Retrieve the value behind this representation
    pub fn val<'a>(&'a self, store: &Store) -> (r: Result<Cow<'a, T>, CanonError>)
        requires
            self.wf(),
            self.held() is None ==> {
                &&& self.spec_id().0 > 32 && store@.contains_key(self.spec_id().1)
                    ==> store@[self.spec_id().1].len() == self.spec_id().0
                &&& id_target(self.spec_id(), store@) matches Some(b) ==> T::spec_decoding(
                    b,
                ).in_bounds()
            },
        ensures
            match self.held() {
                Some(v) => r matches Ok(Cow::Borrowed(b)) && *b == v,
                None => match id_target(self.spec_id(), store@) {
                    None => r is Err && r->Err_0 == CanonError::NotFound,
                    Some(b) => match T::spec_decoding(b) {
                        Decoded::Value(m, _) => r matches Ok(Cow::Owned(o)) && o.model() == m,
                        Decoded::Invalid => r is Err && r->Err_0 == CanonError::InvalidEncoding,
                        Decoded::Short => false,
                    },
                },
            },
    {
        match &self.value {
            Some(v) => Ok(Cow::Borrowed(v)),
            None => match &self.id {
                Some(id) => match id.reify(store) {
                    Ok(t) => Ok(Cow::Owned(t)),
                    Err(e) => Err(e),
                },
                None => Err(CanonError::NotFound),
            },
        }
    }

    /// Retrieve a mutable value behind this representation. The value is read
    /// back from the store if the `Repr` does not hold it; the identifier is
    /// dropped, since the value may change.
    pub fn val_mut<'a>(&'a mut self, store: &Store) -> (r: Result<ValMut<'a, T>, CanonError>)
        requires
            old(self).wf(),
            old(self).held() is None ==> {
                &&& old(self).spec_id().0 > 32 && store@.contains_key(old(self).spec_id().1)
                    ==> store@[old(self).spec_id().1].len() == old(self).spec_id().0
                &&& id_target(old(self).spec_id(), store@) matches Some(b) ==> T::spec_decoding(
                    b,
                ).in_bounds()
            },
        ensures
            match r {
                Ok(v) => {
                    &&& final(self).held() == Some(*final(v.0))
                    &&& final(self).kept_id() is None
                    &&& final(self).wf()
                    &&& match old(self).held() {
                        Some(h) => *v.0 == h,
                        None => id_target(old(self).spec_id(), store@) matches Some(b)
                            && T::spec_decoding(b) matches Decoded::Value(m, _) && (*v.0).model()
                            == m,
                    }
                },
                Err(e) => {
                    &&& old(self).held() is None
                    &&& *final(self) == *old(self)
                    &&& match id_target(old(self).spec_id(), store@) {
                        None => e == CanonError::NotFound,
                        Some(b) => T::spec_decoding(b) is Invalid && e
                            == CanonError::InvalidEncoding,
                    }
                },
            },
    {
        if self.value.is_none() {
            let t = match &self.id {
                Some(id) => match id.reify(store) {
                    Ok(t) => t,
                    Err(e) => return Err(e),
                },
                None => return Err(CanonError::NotFound),
            };
            self.value = Some(t);
        }
        self.id = None;
        match &mut self.value {
            Some(v) => Ok(ValMut(v)),
            None => Err(CanonError::NotFound),
        }
    }

    /// Returns the value behind the `Repr`, a clone of the value held or the
    /// value read back from the store.
    pub fn restore(&self, store: &Store) -> (r: Result<T, CanonError>)
        where
            T: Clone,
        requires
            self.wf(),
            self.held() is None ==> {
                &&& self.spec_id().0 > 32 && store@.contains_key(self.spec_id().1)
                    ==> store@[self.spec_id().1].len() == self.spec_id().0
                &&& id_target(self.spec_id(), store@) matches Some(b) ==> T::spec_decoding(
                    b,
                ).in_bounds()
            },
        ensures
            self.held() is None ==> reads_back_as(r, self.read_back(store@)),
            match self.held() {
                Some(v) => r matches Ok(c) && vstd::pervasive::cloned(v, c),
                None => match id_target(self.spec_id(), store@) {
                    None => r == Err::<T, CanonError>(CanonError::NotFound),
                    Some(b) => match T::spec_decoding(b) {
                        Decoded::Value(m, _) => r matches Ok(c) && c.model() == m,
                        Decoded::Invalid => r == Err::<T, CanonError>(
                            CanonError::InvalidEncoding,
                        ),
                        Decoded::Short => false,
                    },
                },
            },
    {
        match &self.value {
            Some(v) => Ok(v.clone()),
            None => match &self.id {
                Some(id) => id.reify(store),
                None => Err(CanonError::NotFound),
            },
        }
    }

    /// Unwrap the contained item: the value held, or the value read back
    /// from the store.
    pub fn unwrap_or_clone(self, store: &Store) -> (r: Result<T, CanonError>)
        requires
            self.wf(),
            self.held() is None ==> {
                &&& self.spec_id().0 > 32 && store@.contains_key(self.spec_id().1)
                    ==> store@[self.spec_id().1].len() == self.spec_id().0
                &&& id_target(self.spec_id(), store@) matches Some(b) ==> T::spec_decoding(
                    b,
                ).in_bounds()
            },
        ensures
            reads_back_as(r, self.read_back(store@)),
            match self.held() {
                Some(v) => r == Ok::<T, CanonError>(v),
                None => match id_target(self.spec_id(), store@) {
                    None => r == Err::<T, CanonError>(CanonError::NotFound),
                    Some(b) => match T::spec_decoding(b) {
                        Decoded::Value(m, _) => r matches Ok(c) && c.model() == m,
                        Decoded::Invalid => r == Err::<T, CanonError>(
                            CanonError::InvalidEncoding,
                        ),
                        Decoded::Short => false,
                    },
                },
            },
    {
        match self.value {
            Some(v) => Ok(v),
            None => match &self.id {
                Some(id) => id.reify(store),
                None => Err(CanonError::NotFound),
            },
        }
    }
}

/// Whether `r` is what `outcome` describes: a value with that model, or that
/// error.
pub open spec fn reads_back_as<T: Canon>(r: Result<T, CanonError>, outcome: Result<T::Model, CanonError>) -> bool {
    match r {
        Ok(t) => outcome == Ok::<T::Model, CanonError>(t.model()),
        Err(e) => outcome == Err::<T::Model, CanonError>(e),
    }
}

impl<T: Canon + Clone> Clone for Repr<T> {
    /// A clone holds a clone of the value held, or the same identifier.
    fn clone(&self) -> (c: Self)
        ensures
            match self.held() {
                Some(v) => c.held() matches Some(w) && vstd::pervasive::cloned(v, w)
                    && c.kept_id() is None,
                None => c.held() is None && c.kept_id() == self.kept_id(),
            },
            self.wf() ==> c.wf(),
    {
        match &self.value {
            Some(v) => Repr { value: Some(v.clone()), id: None },
            None => Repr { value: None, id: self.id },
        }
    }
}

/// Unwrapping a `Repr` reads back what restoring a clone of it reads back.
/// A `Repr` holding its value unwraps to that value, and restoring a clone
/// gives a clone of it; a `Repr` holding only an identifier, and its clone,
/// which keeps that identifier, read back the same in the same store.
pub proof fn lemma_clone_reads_back<T: Canon>(r: Repr<T>, c: Repr<T>, store: Map<Seq<u8>, Seq<u8>>)
    requires
        r.held() is None,
        c.held() is None,
        c.kept_id() == r.kept_id(),
    ensures
        c.read_back(store) == r.read_back(store),
{
}

/// The forms a `Repr` can take: a value, a value with its identifier, or an
/// identifier alone.
#[derive(Debug, Clone, Copy, PartialEq, Eq, Structural)]
pub enum ReprKind {
    /// The value, its identifier not computed yet
    Value,
    /// The value, with its identifier computed
    ValueCached,
    /// The identifier of the value, which is in the store
    Ident,
}

impl<T: Canon> Repr<T> {
    /// A `Repr` of `t` in the form `kind`, as fuzzing draws them: for an
    /// identifier alone, the value is put into the store.
    pub fn from_noise(store: &mut Store, t: T, kind: ReprKind) -> (r: Self)
        requires
            t.can_encode(),
            T::spec_encoding(t.model()).len() <= usize::MAX,
        ensures
            r.wf(),
            r.spec_id() == id_of_bytes(T::spec_encoding(t.model())),
            match kind {
                ReprKind::Value => r.held() == Some(t) && r.kept_id() is None && final(store)@
                    == old(store)@,
                ReprKind::ValueCached => r.held() == Some(t) && r.kept_id() == Some(
                    id_of_bytes(T::spec_encoding(t.model())),
                ) && final(store)@ == old(store)@,
                ReprKind::Ident => r.held() is None && r.kept_id() == Some(
                    id_of_bytes(T::spec_encoding(t.model())),
                ) && final(store)@ == store_after_id(old(store)@, T::spec_encoding(t.model())),
            },
    {
        match kind {
            ReprKind::Value => Repr { value: Some(t), id: None },
            ReprKind::ValueCached => {
                let id = Id::ident(&t);
                Repr { value: Some(t), id: Some(id) }
            },
            ReprKind::Ident => {
                let id = Id::new(store, &t);
                Repr { value: None, id: Some(id) }
            },
        }
    }
}

/// A mutable value derived from a Repr
pub struct ValMut<'a, T>(pub &'a mut T);

impl<'a, T> Deref for ValMut<'a, T> {
    type Target = T;

    fn deref(&self) -> (r: &T)
        ensures
            *r == *old(self.0),
    {
        self.0
    }
}

impl<T: Canon> Canon for Repr<T> {
    type Model = (u16, Seq<u8>);

    /// A `Repr` stands for its identifier, as written.
    open spec fn model(&self) -> (u16, Seq<u8>) {
        written_id(self.spec_id())
    }

    open spec fn can_encode(&self) -> bool {
        &&& self.wf()
        &&& (self.held() matches Some(v) ==> v.can_encode() && T::spec_encoding(v.model()).len()
            <= usize::MAX)
    }

    /// The encoding of the identifier.
    open spec fn spec_encoding(m: (u16, Seq<u8>)) -> Seq<u8> {
        <Id as Canon>::spec_encoding(m)
    }

    open spec fn spec_decoding(bytes: Seq<u8>) -> Decoded<(u16, Seq<u8>)> {
        <Id as Canon>::spec_decoding(bytes)
    }

    fn encode(&self, sink: &mut Sink) {
        let id = self.get_id();
        id.encode(sink)
    }

    fn decode(source: &mut Source) -> (r: Result<Self, CanonError>)
        ensures
            r matches Ok(d) ==> (d.wf() && d.held() is None && (Self::spec_decoding(
                old(source).remaining(),
            ) matches Decoded::Value(w, _) && d.spec_id() == id_of_written(w))),
    {
        match Id::decode(source) {
            Ok(id) => Ok(Repr { value: None, id: Some(id) }),
            Err(e) => Err(e),
        }
    }

    fn encoded_len(&self) -> (n: usize) {
        self.get_id().encoded_len()
    }

    proof fn lemma_decode_encoding(&self, rest: Seq<u8>) {
        lemma_spec_id_len(self);
        lemma_id_roundtrip(written_id(self.spec_id()), rest);
    }
}

/// A committed `Repr` can be read back: once `commit` has put the value
/// into the store, the identifier the `Repr` stands for (and encodes as)
/// targets, in that store, the encoding of the value, which decodes to it.
/// So a `Repr` decoded from that encoding (which gives the identifier back
/// whole when the value's encoding is shorter than 65536 bytes) gives the
/// value back from `val`, `restore` and `unwrap_or_clone`.
pub proof fn lemma_commit_then_read<T: Canon>(r: Repr<T>, v: T, store: Map<Seq<u8>, Seq<u8>>)
    requires
        r.wf(),
        r.held() == Some(v),
        T::spec_encoding(v.model()).len() <= u32::MAX,
    ensures
        ({
            let e = T::spec_encoding(v.model());
            let after = store_after_id(store, e);
            &&& r.spec_id() == id_of_bytes(e)
            &&& id_target(r.spec_id(), after) == Some(e)
            &&& r.spec_id().0 > 32 ==> after[r.spec_id().1].len() == r.spec_id().0
            &&& T::spec_decoding(e) == Decoded::Value(v.model(), e.len())
            &&& e.len() < 0x10000 ==> round_trips(r.spec_id())
        }),
{
    crate::id::lemma_reify_new(v, store);
    if T::spec_encoding(v.model()).len() < 0x10000 {
        crate::id::lemma_made_ids_round_trip(T::spec_encoding(v.model()));
    }
}

/// The payload of the identifier a `Repr` stands for is 32 bytes long.
pub proof fn lemma_spec_id_len<T: Canon>(r: &Repr<T>)
    ensures
        r.spec_id().1.len() == 32,
{
    match r.id {
        Some(id) => id.lemma_payload_len(),
        None => {},
    }
}

} // verus!
