use mabo::varint::big::{zigzag_decode_ibig, zigzag_encode_ibig};
use mabo::varint::{
    decode_ibig, decode_ubig, encode_i128, encode_ibig, encode_u128, encode_ubig, size_ibig,
    size_ubig, BigInteger, BigNat,
};

fn big_nat(value: u128) -> BigNat {
    let mut digits = Vec::new();
    let mut v = value;
    while v > 0 {
        digits.push((v & 0xffff_ffff) as u32);
        v >>= 32;
    }
    BigNat { digits }
}

fn big_int(value: i128) -> BigInteger {
    BigInteger { negative: value < 0, magnitude: big_nat(value.unsigned_abs()) }
}

fn value_of(n: &BigNat) -> u128 {
    n.digits.iter().rev().fold(0u128, |acc, d| (acc << 32) | u128::from(*d))
}

fn signed_of(n: &BigInteger) -> i128 {
    let m = value_of(&n.magnitude) as i128;
    if n.negative { -m } else { m }
}

const SAMPLES: [u128; 12] = [
    0,
    1,
    127,
    128,
    255,
    256,
    300,
    16_384,
    u32::MAX as u128,
    1 << 32,
    1 << 64,
    u128::MAX,
];

#[test]
fn ubig_matches_fixed_width_encoding() {
    for value in SAMPLES {
        let (fixed, len) = encode_u128(value);
        let big = encode_ubig(&big_nat(value));
        assert_eq!(&fixed[..len], big.as_slice(), "{value}");
        assert_eq!(len, size_ubig(&big_nat(value)), "{value}");
    }
}

#[test]
fn ubig_small_values() {
    assert_eq!(vec![0], encode_ubig(&big_nat(0)));
    assert_eq!(vec![0x80, 0x02], encode_ubig(&big_nat(256)));
    assert_eq!(vec![0xac, 0x02], encode_ubig(&big_nat(300)));
    // Trailing zero digits do not change the value.
    assert_eq!(vec![0x05], encode_ubig(&BigNat { digits: vec![5, 0, 0] }));
    assert_eq!(1, size_ubig(&BigNat { digits: vec![] }));
}

#[test]
fn ubig_roundtrip_with_trailing_bytes() {
    for value in SAMPLES {
        let mut bytes = encode_ubig(&big_nat(value));
        let len = bytes.len();
        bytes.extend_from_slice(&[0xff, 0x01]);
        let (decoded, n) = decode_ubig(&bytes).unwrap();
        assert_eq!(len, n);
        assert_eq!(value, value_of(&decoded));
    }
}

#[test]
fn ubig_beyond_u128() {
    // 2^140: twenty groups of seven zero bits, then a one.
    let value = BigNat { digits: vec![0, 0, 0, 0, 1 << 12] };
    let bytes = encode_ubig(&value);
    assert_eq!(21, bytes.len());
    assert_eq!(21, size_ubig(&value));
    assert!(bytes[..20].iter().all(|b| *b == 0x80));
    assert_eq!(0x01, bytes[20]);
    let (decoded, n) = decode_ubig(&bytes).unwrap();
    assert_eq!(21, n);
    assert_eq!(encode_ubig(&decoded), bytes);
}

#[test]
fn ubig_missing_end_marker() {
    assert!(decode_ubig(&[]).is_err());
    assert!(decode_ubig(&[0x80, 0xff]).is_err());
}

#[test]
fn ibig_zigzag_values() {
    for (value, expected) in [(0i128, 0u128), (-1, 1), (1, 2), (-2, 3), (2, 4), (-3, 5), (-4, 7)] {
        assert_eq!(expected, value_of(&zigzag_encode_ibig(&big_int(value))), "{value}");
        assert_eq!(value, signed_of(&zigzag_decode_ibig(&big_nat(expected))), "{expected}");
    }
}

#[test]
fn ibig_matches_fixed_width_encoding() {
    for value in [0i128, 1, -1, 63, -64, 64, -65, 1 << 70, -(1 << 70), i128::MAX, i128::MIN + 1] {
        let (fixed, len) = encode_i128(value);
        assert_eq!(&fixed[..len], encode_ibig(&big_int(value)).as_slice(), "{value}");
        assert_eq!(len, size_ibig(&big_int(value)), "{value}");
        let (decoded, n) = decode_ibig(&fixed[..len]).unwrap();
        assert_eq!(len, n);
        assert_eq!(value, signed_of(&decoded), "{value}");
    }
    assert!(decode_ibig(&[0x81]).is_err());
}
