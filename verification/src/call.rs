//! Calling into a module: what the host writes into the module's memory
//! before a call, and what it reads back after.
//!
//! Before a query or a transaction, the host writes, from the start of the
//! module's memory, the encoded state, the method id as one byte, and the
//! encoded arguments. After a query the memory starts with the encoded
//! result; after a transaction with the encoded new state, then the result.
use crate::canon::{Canon, CanonError, Decoded};
use crate::store::{lemma_write_twice, Sink, Source};
use vstd::prelude::*;

verus! {

/// The bytes a call starts with: the state, the method id, the arguments.
pub open spec fn call_bytes<State: Canon, A: Canon>(state: State::Model, id: u8, args: A::Model) -> Seq<u8> {
    State::spec_encoding(state) + seq![id] + A::spec_encoding(args)
}

/// Writes the state, the method id and the arguments at the start of
/// `memory`, and returns how many bytes that took.
pub fn write_call<State: Canon, A: Canon>(memory: &mut [u8], state: &State, id: u8, args: &A) -> (n: usize)
    requires
        state.can_encode(),
        args.can_encode(),
        call_bytes::<State, A>(state.model(), id, args.model()).len() <= old(memory)@.len(),
    ensures
        n == call_bytes::<State, A>(state.model(), id, args.model()).len(),
        final(memory)@ == call_bytes::<State, A>(state.model(), id, args.model()) + old(
            memory,
        )@.skip(n as int),
{
    let ghost b = memory@;
    let ghost es = State::spec_encoding(state.model());
    let ghost ea = A::spec_encoding(args.model());
    let mut sink = Sink::new(memory);
    state.encode(&mut sink);
    id.encode(&mut sink);
    proof {
        lemma_write_twice(b, 0, es, seq![id]);
    }
    args.encode(&mut sink);
    proof {
        lemma_write_twice(b, 0, es + seq![id], ea);
        assert(b.take(0) + (es + seq![id] + ea) =~= call_bytes::<State, A>(
            state.model(),
            id,
            args.model(),
        ));
    }
    sink.offset
}

/// A module that reads its call as a triple of the state, the method id
/// and the arguments gets back what the host wrote: the bytes of a call
/// are the encoding of that triple.
pub proof fn lemma_call_is_triple<State: Canon, A: Canon>(state: State::Model, id: u8, args: A::Model)
    ensures
        call_bytes::<State, A>(state, id, args) == <(State, u8, A) as Canon>::spec_encoding(
            (state, id, args),
        ),
{
    assert(call_bytes::<State, A>(state, id, args) =~= <(State, u8, A) as Canon>::spec_encoding(
        (state, id, args),
    ));
}

/// Reads what a module left at the start of its memory: a value of `R`.
/// After a transaction, `R` is the pair of the new state and the result.
pub fn read_reply<R: Canon>(memory: &[u8]) -> (r: Result<R, CanonError>)
    requires
        R::spec_decoding(memory@).in_bounds(),
    ensures
        match R::spec_decoding(memory@) {
            Decoded::Value(m, _) => r matches Ok(v) && v.model() == m,
            Decoded::Invalid => r == Err::<R, CanonError>(CanonError::InvalidEncoding),
            Decoded::Short => false,
        },
{
    let mut source = Source::new(memory);
    R::decode(&mut source)
}

/// Reads what a module left after a transaction: the new state, then the
/// result. The state is read even when the result after it is not.
pub fn read_transaction_reply<State: Canon, R: Canon>(memory: &[u8]) -> (r: Result<
    (State, Result<R, CanonError>),
    CanonError,
>)
    requires
        State::spec_decoding(memory@).in_bounds(),
        State::spec_decoding(memory@) matches Decoded::Value(_, n) ==> R::spec_decoding(
            memory@.skip(n as int),
        ).in_bounds(),
    ensures
        match State::spec_decoding(memory@) {
            Decoded::Value(s, n) => r matches Ok((st, res)) && st.model() == s && match R::spec_decoding(
                memory@.skip(n as int),
            ) {
                Decoded::Value(m, _) => res matches Ok(v) && v.model() == m,
                Decoded::Invalid => res is Err && res->Err_0 == CanonError::InvalidEncoding,
                Decoded::Short => false,
            },
            Decoded::Invalid => r is Err && r->Err_0 == CanonError::InvalidEncoding,
            Decoded::Short => false,
        },
{
    let mut source = Source::new(memory);
    match State::decode(&mut source) {
        Ok(state) => {
            let result = R::decode(&mut source);
            Ok((state, result))
        },
        Err(e) => Err(e),
    }
}

} // verus!
