use canonical::{
    read_reply, write_call, Canon, CanonError, Cow, DrySink, EncodeToVec, Id, Repr, ReprKind,
    Source, Store,
};

fn decode_all<T: Canon>(bytes: &[u8]) -> Result<T, CanonError> {
    let mut source = Source::new(bytes);
    T::decode(&mut source)
}

#[test]
fn arrays_are_their_elements_without_a_length() {
    let a: [u16; 3] = [1, 300, 2];
    let bytes = a.encode_to_vec();
    assert_eq!(bytes, vec![0x01, 0xac, 0x02, 0x02]);
    assert_eq!(a.encoded_len(), 4);
    assert_eq!(decode_all::<[u16; 3]>(&bytes), Ok(a));
    let empty: [u64; 0] = [];
    assert_eq!(empty.encode_to_vec(), Vec::<u8>::new());
    assert_eq!(decode_all::<[u64; 0]>(&[]), Ok(empty));
    let nested: [[bool; 2]; 2] = [[true, false], [false, true]];
    assert_eq!(nested.encode_to_vec(), vec![1, 0, 0, 1]);
    assert_eq!(decode_all::<[[bool; 2]; 2]>(&[1, 0, 0, 1]), Ok(nested));
    assert_eq!(decode_all::<[bool; 2]>(&[1, 2]), Err(CanonError::InvalidEncoding));
}

#[test]
fn tuples_of_fifteen_and_sixteen() {
    let t15 = (0u8, 1u8, 2u8, 3u8, 4u8, 5u8, 6u8, 7u8, 8u8, 9u8, 0u8, 1u8, 2u8, 3u8, 4u8);
    let b15 = t15.encode_to_vec();
    assert_eq!(b15, vec![0, 1, 2, 3, 4, 5, 6, 7, 8, 9, 0, 1, 2, 3, 4]);
    let back15: (u8, u8, u8, u8, u8, u8, u8, u8, u8, u8, u8, u8, u8, u8, u8) =
        decode_all(&b15).unwrap();
    assert_eq!(back15.encode_to_vec(), b15);
    assert_eq!((back15.0, back15.9, back15.14), (0, 9, 4));
    let t16 = (
        0u64, 1u32, 2u16, 3u8, true, 5i64, 6i32, 7i16, 8u128, 9i128, 0u8, 1u8, 2u8, 3u8, 4u8, 500u64,
    );
    let b16 = t16.encode_to_vec();
    assert_eq!(b16.len(), t16.encoded_len());
    assert_eq!(b16.len(), 19);
    let back: (u64, u32, u16, u8, bool, i64, i32, i16, u128, i128, u8, u8, u8, u8, u8, u64) =
        decode_all(&b16).unwrap();
    assert_eq!(back.encode_to_vec(), b16);
    assert_eq!((back.0, back.4, back.5, back.8, back.9, back.15), (0, true, 5, 8, 9, 500));
}

#[test]
fn dry_sink_identifies_without_storing() {
    let mut sink = DrySink::new();
    sink.copy_bytes(&[0xac]);
    sink.copy_bytes(&[0x02]);
    let id = sink.fin();
    let mut store = Store::new();
    assert_eq!(id, Id::new(&mut store, &300u64));
    let v: Vec<u64> = (0..40).collect();
    let bytes = v.encode_to_vec();
    let mut long = DrySink::new();
    long.copy_bytes(&bytes);
    let id = long.fin();
    assert_eq!(id, Id::raw(Store::hash(&bytes), bytes.len() as u32));
    assert_eq!(DrySink::new().recur(&v), id);
    // nothing was put into the store
    assert_eq!(store.stored_len(&Store::hash(&bytes)), None);
    assert_eq!(Id::of_encoding(&bytes), id);
}

#[test]
fn cow_is_made_owned_on_mutation() {
    let s = String::from("abc");
    let mut cow = Cow::Borrowed(&s);
    cow.deref_mut().push('d');
    assert_eq!(*cow, "abcd");
    assert_eq!(s, "abc");
    match cow {
        Cow::Owned(o) => assert_eq!(o, "abcd"),
        Cow::Borrowed(_) => panic!("a mutated value is owned"),
    }
    let mut owned: Cow<u32> = Cow::Owned(5);
    *owned.deref_mut() += 1;
    assert_eq!(*owned, 6);
}

#[test]
fn call_frame_is_state_id_and_arguments() {
    let mut memory = vec![0xeeu8; 16];
    let state: (u32, i32) = (7, -1);
    let n = write_call(&mut memory, &state, 3, &300u64);
    assert_eq!(n, 5);
    assert_eq!(&memory[..6], &[0x07, 0x01, 0x03, 0xac, 0x02, 0xee]);
    // a module reading its call as a triple gets back what was written
    let triple: ((u32, i32), u8, u64) = read_reply(&memory).unwrap();
    assert_eq!(triple, (state, 3, 300));
    // after a transaction the memory starts with the new state and the result
    let mut after = vec![0u8; 8];
    let _ = write_call(&mut after, &(8u32, -2i32), 1, &true);
    let (new_state, result): ((u32, i32), u8) = read_reply(&after).unwrap();
    assert_eq!(new_state, (8, -2));
    assert_eq!(result, 1);
    assert_eq!(read_reply::<bool>(&[9]), Err(CanonError::InvalidEncoding));
}

#[test]
fn stored_len_tells_the_buffer_to_get_into() {
    let mut store = Store::new();
    let data = [3u8; 40];
    let h = store.put(&data);
    assert_eq!(store.stored_len(&h), Some(40));
    assert_eq!(store.stored_len(&[0u8; 32]), None);
}

#[test]
fn noise_ids_are_long_when_extended() {
    let mut store = Store::new();
    let short = Id::from_noise(&mut store, vec![1, 2, 3], false);
    assert_eq!(short, Id::new(&mut Store::new(), &vec![1u8, 2, 3]));
    assert_eq!(short.size(), 4);
    let long = Id::from_noise(&mut store, vec![1, 2, 3], true);
    let mut extended = vec![1u8, 2, 3];
    extended.extend_from_slice(&Store::hash(&[1, 2, 3]));
    assert_eq!(long.size(), 36);
    assert_eq!(long.reify::<Vec<u8>>(&store), Ok(extended));
}

#[test]
fn reprs_in_each_form() {
    let v: Vec<u64> = (0..40).collect();
    for kind in [ReprKind::Value, ReprKind::ValueCached, ReprKind::Ident] {
        let mut store = Store::new();
        let r = Repr::from_noise(&mut store, v.clone(), kind);
        assert_eq!(r.get_id(), Id::ident(&v));
        assert_eq!(r.restore(&store), Ok(v.clone()));
        let stored = store.stored_len(&Store::hash(&v.encode_to_vec()));
        match kind {
            ReprKind::Ident => assert_eq!(stored, Some(v.encoded_len())),
            _ => assert_eq!(stored, None),
        }
        // a Repr encodes as the identifier of its value
        assert_eq!(r.encode_to_vec(), Id::ident(&v).encode_to_vec());
    }
}

#[test]
fn id_length_is_two_bytes_big_endian() {
    let id = Id::raw([7u8; 32], 989);
    let bytes = id.encode_to_vec();
    assert_eq!(&bytes[..2], &[0x03, 0xdd]);
    assert_eq!(&bytes[2..], &[7u8; 32]);
    assert_eq!(decode_all::<Id>(&bytes), Ok(id));
    // two bytes hold the low 16 bits of a longer length
    let long = Id::raw([7u8; 32], 70000);
    let bytes = long.encode_to_vec();
    assert_eq!(&bytes[..2], &(70000u32 as u16).to_be_bytes());
    assert_eq!(decode_all::<Id>(&bytes).map(|i| i.size()), Ok(70000 % 65536));
    // a length of at most 32 is followed by that many bytes
    let inline = Id::of_encoding(&[9, 8, 7]);
    assert_eq!(inline.encode_to_vec(), vec![0, 3, 9, 8, 7]);
    assert_eq!(decode_all::<Id>(&[0, 3, 9, 8, 7]), Ok(inline));
}

#[test]
fn cloned_reprs_are_independent() {
    let mut store = Store::new();
    let mut r = Repr::new(7u64);
    r.commit(&mut store).unwrap();
    let r2 = r.clone();
    *r.val_mut(&store).unwrap().0 = 8;
    assert_eq!(r.restore(&store), Ok(8));
    assert_eq!(r2.restore(&store), Ok(7));
    // an identifier alone, and its clone, read back the same
    let v: Vec<u64> = (0..40).collect();
    let only_id = Repr::from_noise(&mut store, v.clone(), ReprKind::Ident);
    let copy = only_id.clone();
    assert_eq!(copy.restore(&store), only_id.restore(&store));
    assert_eq!(only_id.unwrap_or_clone(&store), Ok(v));
}
