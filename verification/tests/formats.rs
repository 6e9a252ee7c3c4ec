use canonical::{Canon, CanonError, EncodeToVec, Signal, Sink, Source};
use std::rc::Rc;
use std::sync::Arc;

fn decode_all<T: Canon>(bytes: &[u8]) -> Result<T, CanonError> {
    let mut source = Source::new(bytes);
    T::decode(&mut source)
}

fn roundtrip<T: Canon + PartialEq + std::fmt::Debug>(t: T) {
    let bytes = t.encode_to_vec();
    assert_eq!(bytes.len(), t.encoded_len());
    let back: T = decode_all(&bytes).unwrap();
    assert_eq!(back, t);
}

#[test]
fn varint_bytes_of_known_values() {
    assert_eq!(0u64.encode_to_vec(), vec![0x00]);
    assert_eq!(1u64.encode_to_vec(), vec![0x01]);
    assert_eq!(127u64.encode_to_vec(), vec![0x7f]);
    assert_eq!(128u64.encode_to_vec(), vec![0x80, 0x01]);
    assert_eq!(300u64.encode_to_vec(), vec![0xac, 0x02]);
    assert_eq!(16384u32.encode_to_vec(), vec![0x80, 0x80, 0x01]);
    assert_eq!(
        u64::MAX.encode_to_vec(),
        vec![0xff, 0xff, 0xff, 0xff, 0xff, 0xff, 0xff, 0xff, 0xff, 0x01]
    );
    assert_eq!(u64::MAX.encoded_len(), 10);
    assert_eq!(u16::MAX.encoded_len(), 3);
    assert_eq!(0u16.encoded_len(), 1);
}

#[test]
fn signed_integers_use_zigzag() {
    assert_eq!(0i64.encode_to_vec(), vec![0x00]);
    assert_eq!((-1i64).encode_to_vec(), vec![0x01]);
    assert_eq!(1i64.encode_to_vec(), vec![0x02]);
    assert_eq!((-2i32).encode_to_vec(), vec![0x03]);
    assert_eq!((-64i16).encode_to_vec(), vec![0x7f]);
    assert_eq!(64i16.encode_to_vec(), vec![0x80, 0x01]);
    assert_eq!(canonical::zigzag_encode(-1), 1);
    assert_eq!(canonical::zigzag_encode(i128::MIN), u128::MAX);
    assert_eq!(canonical::zigzag_decode(u128::MAX), i128::MIN);
    assert_eq!(canonical::zigzag_decode(4), 2);
    roundtrip(i16::MIN);
    roundtrip(i16::MAX);
    roundtrip(i32::MIN);
    roundtrip(i32::MAX);
    roundtrip(i64::MIN);
}

#[test]
fn u128_as_two_halves() {
    let v: u128 = (5u128 << 64) + 7;
    assert_eq!(v.encode_to_vec(), vec![0x05, 0x07]);
    roundtrip(u128::MAX);
    roundtrip(-12345678901234567890123i128);
}

#[test]
fn varint_decoding_edges() {
    // a terminating byte after nine continuation bytes is accepted
    let ten = [0xffu8, 0xff, 0xff, 0xff, 0xff, 0xff, 0xff, 0xff, 0xff, 0x01];
    assert_eq!(decode_all::<u64>(&ten), Ok(u64::MAX));
    // more than ten bytes are refused
    let eleven = [0x80u8, 0x80, 0x80, 0x80, 0x80, 0x80, 0x80, 0x80, 0x80, 0x80, 0x00];
    assert_eq!(decode_all::<u64>(&eleven), Err(CanonError::InvalidEncoding));
    // narrower integers keep the low bits
    assert_eq!(decode_all::<u16>(&[0x80, 0x80, 0x04]), Ok(0));
    assert_eq!(decode_all::<u32>(&[0xff, 0xff, 0xff, 0xff, 0x1f]), Ok(u32::MAX));
    // a longer than needed encoding is read too
    assert_eq!(decode_all::<u64>(&[0x81, 0x00]), Ok(1));
    // trailing bytes are left in the source
    let bytes = [0x05u8, 0x06];
    let mut source = Source::new(&bytes);
    assert_eq!(u64::decode(&mut source), Ok(5));
    assert_eq!(u64::decode(&mut source), Ok(6));
}

#[test]
fn tagged_values() {
    assert_eq!(true.encode_to_vec(), vec![1]);
    assert_eq!(false.encode_to_vec(), vec![0]);
    assert_eq!(decode_all::<bool>(&[2]), Err(CanonError::InvalidEncoding));
    assert_eq!(Some(3u8).encode_to_vec(), vec![1, 3]);
    assert_eq!(None::<u8>.encode_to_vec(), vec![0]);
    assert_eq!(decode_all::<Option<u8>>(&[7, 3]), Err(CanonError::InvalidEncoding));
    let ok: Result<u8, bool> = Ok(9);
    let err: Result<u8, bool> = Err(true);
    assert_eq!(ok.encode_to_vec(), vec![0, 9]);
    assert_eq!(err.encode_to_vec(), vec![1, 1]);
    assert_eq!(
        decode_all::<Result<u8, bool>>(&[2, 0]),
        Err(CanonError::InvalidEncoding)
    );
    roundtrip(ok);
    roundtrip(err);
    roundtrip(Some(Some(false)));
    assert_eq!(CanonError::NotFound.encode_to_vec(), vec![1]);
    assert_eq!(CanonError::InvalidEncoding.encode_to_vec(), vec![0]);
    assert_eq!(decode_all::<CanonError>(&[1]), Ok(CanonError::NotFound));
    assert_eq!(decode_all::<CanonError>(&[5]), Err(CanonError::InvalidEncoding));
}

#[test]
fn empty_values() {
    assert_eq!(().encode_to_vec(), Vec::<u8>::new());
    assert_eq!(().encoded_len(), 0);
    assert_eq!(decode_all::<()>(&[]), Ok(()));
    let p: std::marker::PhantomData<u32> = std::marker::PhantomData;
    assert_eq!(p.encoded_len(), 0);
}

#[test]
fn tuples_and_pointers() {
    assert_eq!((1u8, 300u64).encode_to_vec(), vec![1, 0xac, 0x02]);
    roundtrip((1u8, 2u16, 3u32));
    roundtrip((true, (5u8, -5i64)));
    assert_eq!(Rc::new(7u8).encode_to_vec(), vec![7]);
    assert_eq!(*decode_all::<Rc<u64>>(&[0x80, 0x01]).unwrap(), 128);
    assert_eq!(*decode_all::<Arc<bool>>(&[1]).unwrap(), true);
}

#[test]
fn vectors_and_strings() {
    assert_eq!(vec![1u8, 2, 3].encode_to_vec(), vec![3, 1, 2, 3]);
    assert_eq!(Vec::<u64>::new().encode_to_vec(), vec![0]);
    roundtrip(vec![vec![1u16, 400], vec![], vec![65535]]);
    assert_eq!(String::from("hi").encode_to_vec(), vec![2, b'h', b'i']);
    roundtrip(String::from("Happy happy joy joy!"));
    roundtrip(String::from("grüße, 世界"));
    assert_eq!(
        decode_all::<String>(&[2, 0xff, 0xfe]),
        Err(CanonError::InvalidEncoding)
    );
    // an element that fails to decode fails the vector
    assert_eq!(
        decode_all::<Vec<bool>>(&[2, 1, 9]),
        Err(CanonError::InvalidEncoding)
    );
}

#[test]
fn signals() {
    let s = Signal::panic("oops");
    let bytes = s.encode_to_vec();
    assert_eq!(bytes, vec![0, 4, b'o', b'o', b'p', b's']);
    match decode_all::<Signal>(&bytes).unwrap() {
        Signal::Panic(m) => assert_eq!(m, "oops"),
        Signal::Error(_) => panic!("wrong variant"),
    }
    let e = Signal::Error(String::from("bad"));
    match decode_all::<Signal>(&e.encode_to_vec()).unwrap() {
        Signal::Error(m) => assert_eq!(m, "bad"),
        Signal::Panic(_) => panic!("wrong variant"),
    }
    assert!(decode_all::<Signal>(&[3, 0]).is_err());
}

#[test]
fn sink_writes_only_its_part() {
    let mut buf = [0xeeu8; 6];
    let mut sink = Sink::new(&mut buf);
    300u64.encode(&mut sink);
    true.encode(&mut sink);
    assert_eq!(sink.offset, 3);
    drop(sink);
    assert_eq!(buf, [0xac, 0x02, 0x01, 0xee, 0xee, 0xee]);
}
