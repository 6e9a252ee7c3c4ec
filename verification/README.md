# canonical

A serialization library for content-addressed data, verified with Verus.

Values of types implementing `Canon` are encoded to bytes and decoded back.
Each implementation states its byte format as a spec function over a model of
the value, and proves that decoding an encoding, followed by any bytes, gives
the value back and consumes exactly the encoding.

Values are referred to by an `Id`: the length of their encoding and, for
encodings of at most 32 bytes, the encoding itself; longer encodings are kept
in a `Store` under their BLAKE2b hash.

Layout:

- `src/` — the verified library: the `Canon` trait and its implementations
  (integers as variable length integers, tuples, arrays, `Vec`, `String`,
  `Option`, `Result`, ...), the store, identifiers, `Repr`, queries and
  transactions, and the host side of the calls a wasm module makes.
- `tests/` — tests of the library.
- `app/` — what stays outside the verified library: running wasm modules with
  `wasmi`, printing debug output, and a fuzzing harness built on `arbitrary`.
