//! Typed queries: arguments of a call that reads state.
use crate::canon::{Canon, CanonError, Decoded};
use crate::store::{Sink, Source};
use core::marker::PhantomData;
use vstd::prelude::*;

verus! {

/// Represents the type of a query
///
/// `Over` is the type that the query is expected to operate over.
#[derive(Debug)]
pub struct Query<Over, A, R, const ID: u8> {
    /// Arguments, in form of a tuple or single value
    args: A,
    /// The expected return type
    _return: PhantomData<(Over, R)>,
}

impl<Over, A, R, const ID: u8> Query<Over, A, R, ID> {
    /// The arguments of the query.
    pub closed spec fn spec_args(&self) -> A {
        self.args
    }

    /// Construct a new query with provided arguments
    pub fn new(args: A) -> (q: Self)
        ensures
            q.spec_args() == args,
    {
        Query { args, _return: PhantomData }
    }

    /// Returns a reference to the arguments of a query
    pub fn args(&self) -> (a: &A)
        ensures
            *a == self.spec_args(),
    {
        &self.args
    }

    /// Consumes query and returns the arguments
    pub fn into_args(self) -> (a: A)
        ensures
            a == self.spec_args(),
    {
        self.args
    }
}

impl<Over, A: Clone, R, const ID: u8> Clone for Query<Over, A, R, ID> {
    fn clone(&self) -> (c: Self)
        ensures
            vstd::pervasive::cloned(self.spec_args(), c.spec_args()),
    {
        Query { args: self.args.clone(), _return: PhantomData }
    }
}

impl<Over, A: Canon, R, const ID: u8> Canon for Query<Over, A, R, ID> {
    type Model = A::Model;

    open spec fn model(&self) -> A::Model {
        self.spec_args().model()
    }

    open spec fn can_encode(&self) -> bool {
        self.spec_args().can_encode()
    }

    /// The encoding of the arguments.
    open spec fn spec_encoding(m: A::Model) -> Seq<u8> {
        A::spec_encoding(m)
    }

    open spec fn spec_decoding(bytes: Seq<u8>) -> Decoded<A::Model> {
        A::spec_decoding(bytes)
    }

    fn encode(&self, sink: &mut Sink) {
        self.args.encode(sink)
    }

    fn decode(source: &mut Source) -> (r: Result<Self, CanonError>) {
        match A::decode(source) {
            Ok(args) => Ok(Query { args, _return: PhantomData }),
            Err(e) => Err(e),
        }
    }

    fn encoded_len(&self) -> (n: usize) {
        self.args.encoded_len()
    }

    proof fn lemma_decode_encoding(&self, rest: Seq<u8>) {
        self.args.lemma_decode_encoding(rest)
    }
}

} // verus!
