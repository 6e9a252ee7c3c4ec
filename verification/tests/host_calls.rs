use canonical::{host_get, host_hash, host_message, host_put, host_signal, CanonError, Signal, Store};

#[test]
fn put_then_get_through_memory() {
    let mut store = Store::new();
    let mut memory = vec![0u8; 200];
    for i in 0..50 {
        memory[i] = i as u8;
    }
    host_put(&mut memory, 0, 50, 100, &mut store);
    let mut h = [0u8; 32];
    h.copy_from_slice(&memory[100..132]);
    let data: Vec<u8> = (0..50u8).collect();
    assert_eq!(h, Store::hash(&data));
    assert_eq!(host_get(&mut memory, 100, 140, 50, &store), Ok(()));
    assert_eq!(&memory[140..190], &data[..]);
    // an unknown hash leaves memory as it was
    let before = memory.clone();
    memory[100] ^= 0xff;
    let before2 = memory.clone();
    assert_eq!(host_get(&mut memory, 100, 140, 50, &store), Err(CanonError::NotFound));
    assert_eq!(memory, before2);
    assert_ne!(memory, before);
}

#[test]
fn hash_and_messages() {
    let mut memory = b"hello world".to_vec();
    memory.resize(64, 0);
    host_hash(&mut memory, 0, 5, 20);
    assert_eq!(&memory[20..52], &Store::hash(b"hello")[..]);
    assert_eq!(host_message(&memory, 6, 5), "world");
    let invalid = [0x66u8, 0xff, 0x67];
    assert_eq!(host_message(&invalid, 0, 3), "f\u{fffd}g");
    match host_signal(&memory, 0, 5) {
        Signal::Panic(m) => assert_eq!(m, "hello"),
        Signal::Error(_) => panic!("a signal is a panic"),
    }
}
