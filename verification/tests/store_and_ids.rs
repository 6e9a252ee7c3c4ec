use canonical::{Canon, CanonError, Cow, DebugMsg, EncodeToVec, Id, Repr, Sink, Source, Store};

#[test]
fn hash_is_blake2b_256() {
    let h = Store::hash(&[]);
    assert_eq!(
        h,
        [
            0x0e, 0x57, 0x51, 0xc0, 0x26, 0xe5, 0x43, 0xb2, 0xe8, 0xab, 0x2e, 0xb0, 0x60, 0x99,
            0xda, 0xa1, 0xd1, 0xe5, 0xdf, 0x47, 0x77, 0x8f, 0x77, 0x87, 0xfa, 0xab, 0x45, 0xcd,
            0xf1, 0x2f, 0xe3, 0xa8
        ]
    );
    let bytes = [7u8; 32];
    assert_ne!(Store::hash(&bytes), bytes);
}

#[test]
fn store_gives_back_what_was_put() {
    let mut store = Store::new();
    let data: Vec<u8> = (0..100u8).collect();
    let h = store.put(&data);
    assert_eq!(h, Store::hash(&data));
    let mut out = vec![0u8; 100];
    assert_eq!(store.get(&h, &mut out), Ok(()));
    assert_eq!(out, data);
    let mut other = vec![0u8; 3];
    assert_eq!(store.get(&[1u8; 32], &mut other), Err(CanonError::NotFound));
}

#[test]
fn small_values_are_inlined() {
    let mut store = Store::new();
    let id = Id::new(&mut store, &300u64);
    assert_eq!(id.size(), 2);
    let mut expected = [0u8; 32];
    expected[0] = 0xac;
    expected[1] = 0x02;
    assert_eq!(id, Id::raw(expected, 2));
    assert_eq!(id.hash(), Store::hash(&[0xac, 0x02]));
    assert_eq!(id.reify::<u64>(&store), Ok(300));
    assert_eq!(id.take_bytes(&mut store), Ok(None));
    assert_eq!(Id::ident(&300u64), id);
}

#[test]
fn large_values_are_stored() {
    let mut store = Store::new();
    let v: Vec<u64> = (0..40).collect();
    let bytes = v.encode_to_vec();
    let id = Id::new(&mut store, &v);
    assert_eq!(id.size(), bytes.len());
    assert_eq!(id, Id::raw(Store::hash(&bytes), bytes.len() as u32));
    assert_eq!(id.hash(), Store::hash(&bytes));
    assert_eq!(Id::ident(&v), id);
    assert_eq!(id.reify::<Vec<u64>>(&store), Ok(v.clone()));
    // an empty store does not know the value
    let empty = Store::new();
    assert_eq!(id.reify::<Vec<u64>>(&empty), Err(CanonError::NotFound));
    // taking the bytes out removes them
    assert_eq!(id.take_bytes(&mut store), Ok(Some(bytes)));
    assert_eq!(id.take_bytes(&mut store), Err(CanonError::NotFound));
    assert_eq!(id.reify::<Vec<u64>>(&store), Err(CanonError::NotFound));
}

#[test]
fn take_bytes_checks_the_length() {
    let mut store = Store::new();
    let bytes = [9u8; 40];
    let h = store.put(&bytes);
    let wrong = Id::raw(h, 41);
    assert_eq!(wrong.take_bytes(&mut store), Err(CanonError::InvalidEncoding));
}

#[test]
fn id_encoding() {
    // the length in the first two bytes, big endian, then the 32 bytes of the hash
    let id = Id::raw([3u8; 32], 300);
    let bytes = id.encode_to_vec();
    assert_eq!(bytes.len(), 2 + 32);
    assert_eq!(&bytes[0..3], &[0x01, 0x2c, 3]);
    assert_eq!(id.encoded_len(), 34);
    // an inlined value is followed by its bytes only
    let mut store = Store::new();
    let small = Id::new(&mut store, &300u64);
    assert_eq!(small.encode_to_vec(), vec![0x00, 0x02, 0xac, 0x02]);
    assert_eq!(small.encoded_len(), 4);
    let mut source = Source::new(&[0x00, 0x02, 0xac, 0x02]);
    assert_eq!(Id::decode(&mut source), Ok(small));
    assert_eq!(small.reify::<u64>(&store), Ok(300));
}

#[test]
fn repr_roundtrip() {
    let mut store = Store::new();
    let v: Vec<u32> = (0..50).collect();
    let mut repr = Repr::new(v.clone());
    let id = repr.get_id();
    assert_eq!(id, Id::ident(&v));
    match repr.val(&store).unwrap() {
        Cow::Borrowed(b) => assert_eq!(*b, v),
        Cow::Owned(_) => panic!("a held value is borrowed"),
    }
    assert_eq!(repr.commit(&mut store), Ok(()));
    // a repr encodes as the identifier of its value
    let bytes = repr.encode_to_vec();
    assert_eq!(bytes, id.encode_to_vec());
    let mut source = Source::new(&bytes);
    let decoded = Repr::<Vec<u32>>::decode(&mut source).unwrap();
    assert_eq!(decoded.get_id(), id);
    assert_eq!(decoded.restore(&store), Ok(v.clone()));
    match decoded.val(&store).unwrap() {
        Cow::Owned(o) => assert_eq!(o, v),
        Cow::Borrowed(_) => panic!("a value read back is owned"),
    }
    assert_eq!(decoded.unwrap_or_clone(&store), Ok(v.clone()));
    assert_eq!(repr.unwrap_or_clone(&store), Ok(v));
}

#[test]
fn uncommitted_repr_is_not_in_the_store() {
    let store = Store::new();
    let v: Vec<u32> = (0..50).collect();
    let repr = Repr::new(v);
    let bytes = repr.encode_to_vec();
    let mut source = Source::new(&bytes);
    let decoded = Repr::<Vec<u32>>::decode(&mut source).unwrap();
    assert_eq!(decoded.restore(&store), Err(CanonError::NotFound));
}

#[test]
fn debug_messages() {
    let mut msg = DebugMsg::new();
    assert_eq!(msg.bytes(), b"");
    msg.write_str("hello");
    msg.write_str(", world");
    assert_eq!(msg.bytes(), b"hello, world");
    assert_eq!(msg.as_str(), "hello, world");
    msg.write_str(" \u{e9}t\u{e9}");
    assert_eq!(msg.as_str(), "hello, world \u{e9}t\u{e9}");
    assert_eq!(msg.bytes().len(), 18);
}

#[test]
fn encode_into_a_larger_buffer() {
    let mut buf = vec![0u8; 8];
    let mut sink = Sink::new(&mut buf);
    Some(5u8).encode(&mut sink);
    drop(sink);
    assert_eq!(buf, vec![1, 5, 0, 0, 0, 0, 0, 0]);
}

#[test]
fn repr_val_mut() {
    let mut store = Store::new();
    let mut repr = Repr::new(vec![1u64, 2, 3]);
    {
        let vm = repr.val_mut(&store).unwrap();
        assert_eq!(*vm, vec![1, 2, 3]);
        vm.0.push(4);
    }
    assert_eq!(repr.get_id(), Id::ident(&vec![1u64, 2, 3, 4]));
    repr.commit(&mut store).unwrap();
    let bytes = repr.encode_to_vec();
    let mut source = Source::new(&bytes);
    let mut decoded = Repr::<Vec<u64>>::decode(&mut source).unwrap();
    {
        let vm = decoded.val_mut(&store).unwrap();
        vm.0[0] = 10;
    }
    assert_eq!(decoded.unwrap_or_clone(&store), Ok(vec![10, 2, 3, 4]));
}
