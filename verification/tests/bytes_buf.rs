use bytes::Bytes;
use mabo::buf::decode::{decode_bytes_bytes, decode_non_zero_bytes_bytes, Error};
use mabo::buf::encode::encode_bytes_bytes;
use mabo::buf::size::size_bytes_bytes;
use mabo::{bytes_len, NonZero};

#[test]
fn non_zero_bytes_bytes_valid() {
    let mut buf = Vec::new();
    encode_bytes_bytes(&mut buf, &Bytes::from_static(&[1, 2, 3]));
    assert!(decode_non_zero_bytes_bytes(&mut &*buf).is_ok());
}

#[test]
fn non_zero_bytes_bytes_invalid() {
    let mut buf = Vec::new();
    encode_bytes_bytes(&mut buf, &Bytes::from_static(&[]));
    assert!(matches!(decode_non_zero_bytes_bytes(&mut &*buf), Err(Error::Zero)));
}

#[test]
fn bytes_roundtrip_and_size() {
    let value = Bytes::from_static(&[7, 8, 9, 10]);
    let mut buf = Vec::new();
    encode_bytes_bytes(&mut buf, &value);
    assert_eq!(vec![4, 7, 8, 9, 10], buf);
    assert_eq!(buf.len(), size_bytes_bytes(&value));
    buf.push(0xff);
    let mut r = &*buf;
    assert_eq!(value, decode_bytes_bytes(&mut r).unwrap());
    assert_eq!(&[0xff], r);
    let nz = decode_non_zero_bytes_bytes(&mut &*buf).unwrap();
    assert_eq!(&value, nz.get());
}

#[test]
fn bytes_errors() {
    assert!(matches!(decode_bytes_bytes(&mut &[3u8, 1][..]), Err(Error::InsufficientData)));
    assert!(matches!(decode_bytes_bytes(&mut &[0x80u8][..]), Err(Error::DecodeInt(_))));
    assert!(NonZero::<Bytes>::new(Bytes::new()).is_none());
    assert!(NonZero::<Bytes>::new(Bytes::from_static(b"x")).is_some());
}

#[test]
fn bytes_len_counts_the_buffer() {
    assert_eq!(3, bytes_len(&Bytes::from_static(&[7, 8, 9])));
    assert_eq!(0, bytes_len(&Bytes::new()));
}
