use std::collections::{HashMap, HashSet};

use mabo::buf::decode::{
    decode_bool, decode_hash_map, decode_hash_set, decode_non_zero_hash_map,
    decode_non_zero_hash_set, decode_u32, Error,
};
use mabo::buf::encode::{encode_bool, encode_hash_map, encode_hash_set, encode_u32};
use mabo::buf::size::{size_bool, size_hash_map, size_hash_set, size_u32};
use mabo::NonZero;

#[test]
fn non_zero_hash_map_valid() {
    let mut buf = Vec::new();
    encode_hash_map(
        &mut buf,
        &HashMap::from_iter([(1, true), (2, false)]),
        |k| size_u32(*k),
        |v| size_bool(*v),
        |w, k| encode_u32(w, *k),
        |w, v| encode_bool(w, *v),
    );
    assert!(decode_non_zero_hash_map(&mut &*buf, |r| decode_u32(r), |r| decode_bool(r)).is_ok());
}

#[test]
fn non_zero_hash_map_invalid() {
    let mut buf = Vec::new();
    encode_hash_map(
        &mut buf,
        &HashMap::new(),
        |k| size_u32(*k),
        |v| size_bool(*v),
        |w, k| encode_u32(w, *k),
        |w, v| encode_bool(w, *v),
    );
    assert!(matches!(
        decode_non_zero_hash_map(&mut &*buf, |r| decode_u32(r), |r| decode_bool(r)),
        Err(Error::Zero),
    ));
}

#[test]
fn non_zero_hash_set_valid() {
    let mut buf = Vec::new();
    encode_hash_set(
        &mut buf,
        &HashSet::from_iter([1, 2, 3]),
        |v| size_u32(*v),
        |w, v| {
            encode_u32(w, *v);
        },
    );
    assert!(decode_non_zero_hash_set(&mut &*buf, |r| decode_u32(r)).is_ok());
}

#[test]
fn non_zero_hash_set_invalid() {
    let mut buf = Vec::new();
    encode_hash_set(
        &mut buf,
        &HashSet::new(),
        |v| size_u32(*v),
        |w, v| encode_u32(w, *v),
    );
    assert!(matches!(
        decode_non_zero_hash_set(&mut &*buf, |r| decode_u32(r)),
        Err(Error::Zero),
    ));
}

#[test]
fn hash_map_roundtrip() {
    let map = HashMap::from_iter([(1u32, true), (300, false), (70000, true)]);
    let mut buf = Vec::new();
    encode_hash_map(
        &mut buf,
        &map,
        |k| size_u32(*k),
        |v| size_bool(*v),
        |w, k| encode_u32(w, *k),
        |w, v| encode_bool(w, *v),
    );
    // Byte length 1 + 2 + 3 keys and 3 values, then the entries.
    assert_eq!(9, buf[0]);
    assert_eq!(10, buf.len());
    let mut reader = &*buf;
    assert_eq!(map, decode_hash_map(&mut reader, |r| decode_u32(r), |r| decode_bool(r)).unwrap());
    assert!(reader.is_empty());
    // The entry count as varint, plus the sizes of the entries.
    assert_eq!(10, size_hash_map(&map, |k| size_u32(*k), |v| size_bool(*v)));
}

#[test]
fn hash_map_later_entry_wins() {
    // Two entries for key 5: the later one stays.
    let buf = [4u8, 5, 1, 5, 0];
    let map = decode_hash_map(&mut &buf[..], |r| decode_u32(r), |r| decode_bool(r)).unwrap();
    assert_eq!(HashMap::from_iter([(5, false)]), map);
}

#[test]
fn hash_set_roundtrip() {
    let set = HashSet::from_iter([7u32, 128, 9]);
    let mut buf = Vec::new();
    encode_hash_set(&mut buf, &set, |v| size_u32(*v), |w, v| encode_u32(w, *v));
    assert_eq!(4, buf[0]);
    let mut reader = &*buf;
    assert_eq!(set, decode_hash_set(&mut reader, |r| decode_u32(r)).unwrap());
    assert!(reader.is_empty());
    assert_eq!(5, size_hash_set(&set, |v| size_u32(*v)));
}

#[test]
fn hash_set_errors() {
    assert!(matches!(
        decode_hash_set(&mut &[5u8, 1][..], |r| decode_u32(r)),
        Err(Error::InsufficientData)
    ));
    assert!(matches!(
        decode_hash_set(&mut &[0x80u8][..], |r| decode_u32(r)),
        Err(Error::DecodeInt(_))
    ));
    let set = decode_hash_set(&mut &[2u8, 3, 3][..], |r| decode_u32(r)).unwrap();
    assert_eq!(HashSet::from_iter([3]), set);
}

#[test]
fn non_zero_hash_collections() {
    assert!(NonZero::<HashMap<u8, u8>>::new(HashMap::new()).is_none());
    assert_eq!(
        Some(&HashSet::from_iter([1u8])),
        NonZero::<HashSet<u8>>::new(HashSet::from_iter([1u8])).as_ref().map(|nz| nz.get())
    );
}
