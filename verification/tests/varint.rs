use mabo::buf::size::Size;
use mabo::varint::{
    decode_i128, decode_i16, decode_i32, decode_i64, decode_u128, decode_u16, decode_u32,
    decode_u64, encode_i128, encode_i16, encode_i32, encode_i64, encode_u128, encode_u16,
    encode_u32, encode_u64, max_size, size_i128, size_i16, size_i32, size_i64, size_u128,
    size_u16, size_u32, size_u64, zigzag_decode_i128, zigzag_decode_i16, zigzag_decode_i32,
    zigzag_decode_i64, zigzag_encode_i128, zigzag_encode_i16, zigzag_encode_i32,
    zigzag_encode_i64, DecodeIntError,
};

#[test]
fn max_sizes() {
    assert_eq!(3, max_size::<u16>());
    assert_eq!(5, max_size::<u32>());
    assert_eq!(10, max_size::<u64>());
    assert_eq!(19, max_size::<u128>());
}

#[test]
fn zigzag_roundtrips() {
    for value in [0, i16::MIN, i16::MAX] {
        assert_eq!(value, zigzag_decode_i16(zigzag_encode_i16(value)));
    }
    for value in [0, i32::MIN, i32::MAX] {
        assert_eq!(value, zigzag_decode_i32(zigzag_encode_i32(value)));
    }
    for value in [0, i64::MIN, i64::MAX] {
        assert_eq!(value, zigzag_decode_i64(zigzag_encode_i64(value)));
    }
    for value in [0, i128::MIN, i128::MAX] {
        assert_eq!(value, zigzag_decode_i128(zigzag_encode_i128(value)));
    }
}

#[test]
fn zigzag_values() {
    assert_eq!(0, zigzag_encode_i32(0));
    assert_eq!(1, zigzag_encode_i32(-1));
    assert_eq!(2, zigzag_encode_i32(1));
    assert_eq!(3, zigzag_encode_i32(-2));
    assert_eq!(u32::MAX, zigzag_encode_i32(i32::MIN));
    assert_eq!(-2, zigzag_decode_i32(3));
}

#[test]
fn roundtrip_unsigned() {
    for value in [u16::MIN, 1, u16::MAX] {
        let (buf, size) = encode_u16(value);
        assert_eq!((value, size), decode_u16(&buf[..size]).unwrap());
    }
    for value in [u32::MIN, 1, u32::MAX] {
        let (buf, size) = encode_u32(value);
        assert_eq!((value, size), decode_u32(&buf[..size]).unwrap());
    }
    for value in [u64::MIN, 1, u64::MAX] {
        let (buf, size) = encode_u64(value);
        assert_eq!((value, size), decode_u64(&buf[..size]).unwrap());
    }
    for value in [u128::MIN, 1, u128::MAX] {
        let (buf, size) = encode_u128(value);
        assert_eq!((value, size), decode_u128(&buf[..size]).unwrap());
    }
}

#[test]
fn roundtrip_signed() {
    for value in [i16::MIN, -1, 0, 1, i16::MAX] {
        let (buf, size) = encode_i16(value);
        assert_eq!(value, decode_i16(&buf[..size]).unwrap().0);
    }
    for value in [i32::MIN, -1, 0, 1, i32::MAX] {
        let (buf, size) = encode_i32(value);
        assert_eq!(value, decode_i32(&buf[..size]).unwrap().0);
    }
    for value in [i64::MIN, -1, 0, 1, i64::MAX] {
        let (buf, size) = encode_i64(value);
        assert_eq!(value, decode_i64(&buf[..size]).unwrap().0);
    }
    for value in [i128::MIN, -1, 0, 1, i128::MAX] {
        let (buf, size) = encode_i128(value);
        assert_eq!(value, decode_i128(&buf[..size]).unwrap().0);
    }
}

#[test]
fn sizechecks() {
    assert_eq!(1, size_u16(u16::MIN));
    assert_eq!(1, size_u16(1));
    assert_eq!(3, size_u16(u16::MAX));
    assert_eq!(5, size_u32(u32::MAX));
    assert_eq!(10, size_u64(u64::MAX));
    assert_eq!(19, size_u128(u128::MAX));
    assert_eq!(3, size_i16(i16::MIN));
    assert_eq!(1, size_i16(-1));
    assert_eq!(1, size_i32(0));
    assert_eq!(1, size_i64(1));
    assert_eq!(19, size_i128(i128::MAX));
    assert_eq!(2, size_u32(128));
    assert_eq!(1, size_u32(127));
}

#[test]
fn encoding_bytes() {
    let (buf, size) = encode_u32(300);
    assert_eq!(2, size);
    assert_eq!([0xac, 0x02, 0, 0, 0], buf);
    let (buf, size) = encode_u16(1);
    assert_eq!((1, [1, 0, 0]), (size, buf));
}

#[test]
fn decode_truncates_and_fails() {
    // third byte carries bits beyond 16, which are cut off
    assert_eq!(Ok((0xffff, 3)), decode_u16(&[0xff, 0xff, 0x7f]));
    // no end marker within the first 3 bytes
    assert_eq!(Err(DecodeIntError), decode_u16(&[0xff, 0xff, 0xff, 0x01]));
    // empty input
    assert_eq!(Err(DecodeIntError), decode_u32(&[]));
    // trailing bytes are ignored
    assert_eq!(Ok((5, 1)), decode_u64(&[5, 0xff, 0xff]));
}

#[test]
fn size_trait_matches_encoding() {
    assert_eq!(1, true.size());
    assert_eq!(1, 200u8.size());
    assert_eq!(2, 300u32.size());
    assert_eq!(1, (-1i32).size());
    assert_eq!(3, 70_000u64.size());
    assert_eq!(19, u128::MAX.size());
    assert_eq!(19, i128::MIN.size());
}
