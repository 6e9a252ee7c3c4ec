use arbitrary::{Arbitrary, Unstructured};
use canonical::{Canon, Id, Sink, Source, Store};

#[test]
fn test_empty() {
    let a = Id::raw(
        [
            0, 1, 2, 3, 4, 5, 6, 7, 8, 9, 10, 11, 12, 13, 14, 15, 16, 17, 18,
            19, 20, 21, 22, 23, 24, 25, 26, 27, 28, 29, 30, 31,
        ],
        989,
    );
    let mut buf = vec![0u8; a.encoded_len()];
    let mut sink = Sink::new(&mut buf);
    a.encode(&mut sink);
    let mut source = Source::new(&buf);
    let b = Id::decode(&mut source).unwrap();
    assert_eq!(a, b);
}

/// Deterministic noise to draw arbitrary values from.
fn noise(len: usize) -> Vec<u8> {
    let mut state: u64 = 0x2545_f491_4f6c_dd1d;
    (0..len)
        .map(|_| {
            state = state
                .wrapping_mul(6364136223846793005)
                .wrapping_add(1442695040888963407);
            (state >> 56) as u8
        })
        .collect()
}

#[test]
fn fuzz_id() {
    let data = noise(1 << 16);
    let mut u = Unstructured::new(&data);
    let mut store = Store::new();
    for _ in 0..128 {
        let bytes = Vec::<u8>::arbitrary(&mut u).unwrap();
        let extend = bool::arbitrary(&mut u).unwrap();
        let id = Id::from_noise(&mut store, bytes, extend);

        let claimed_len = id.encoded_len();
        let mut buffer_a = vec![0xffu8; claimed_len + 1];
        let mut buffer_b = vec![0x00u8; claimed_len + 1];
        id.encode(&mut Sink::new(&mut buffer_a[..]));
        id.encode(&mut Sink::new(&mut buffer_b[..]));
        // nothing was written past the claimed length
        assert_eq!(buffer_a[claimed_len], 0xff);
        assert_eq!(buffer_b[claimed_len], 0x00);
        assert_eq!(buffer_a[..claimed_len], buffer_b[..claimed_len]);

        let restored: Id = Id::new(&mut store, &id).reify(&store).unwrap();
        assert_eq!(id, restored);
    }
}
