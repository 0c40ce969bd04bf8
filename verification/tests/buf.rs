use mabo::buf::decode::Decode;
use mabo::buf::encode::Encode;
use mabo::buf::size::Size;
use mabo::buf::decode::{
    decode_bool, decode_bytes_std, decode_i8, decode_id, decode_non_zero_bytes_std,
    decode_non_zero_string, decode_non_zero_vec, decode_option, decode_skip, decode_string,
    decode_array, decode_u32, decode_u8, decode_variant_id, decode_vec, Error, END_MARKER,
};
use mabo::buf::encode::{
    encode_array, encode_bool, encode_bytes_std, encode_field, encode_field_option, encode_i8, encode_id,
    encode_option, encode_string, encode_u32, encode_u8, encode_variant_id, encode_vec,
};
use mabo::buf::size::{
    size_array, size_bytes_std, size_field, size_field_id, size_field_option, size_option,
    size_string, size_u32, size_variant_id, size_vec,
};
use mabo::{FieldEncoding, FieldId, VariantId};

#[test]
fn non_zero_string_valid() {
    let mut buf = Vec::new();
    encode_string(&mut buf, "test");
    assert!(decode_non_zero_string(&mut &*buf).is_ok());
}

#[test]
fn non_zero_string_invalid() {
    let mut buf = Vec::new();
    encode_string(&mut buf, "");
    assert!(matches!(
        decode_non_zero_string(&mut &*buf),
        Err(Error::Zero),
    ));
}

#[test]
fn non_zero_bytes_std_valid() {
    let mut buf = Vec::new();
    encode_bytes_std(&mut buf, &[1, 2, 3]);
    assert!(decode_non_zero_bytes_std(&mut &*buf).is_ok());
}

#[test]
fn non_zero_bytes_std_invalid() {
    let mut buf = Vec::new();
    encode_bytes_std(&mut buf, &[]);
    assert!(matches!(
        decode_non_zero_bytes_std(&mut &*buf),
        Err(Error::Zero),
    ));
}

#[test]
fn non_zero_vec_valid() {
    let mut buf = Vec::new();
    encode_vec(
        &mut buf,
        &[1, 2, 3],
        |v| size_u32(*v),
        |w, v| encode_u32(w, *v),
    );
    assert!(decode_non_zero_vec(&mut &*buf, |r| decode_u32(r)).is_ok());
}

#[test]
fn non_zero_vec_invalid() {
    let mut buf = Vec::new();
    encode_vec(&mut buf, &[], |v| size_u32(*v), |w, v| encode_u32(w, *v));
    assert!(matches!(
        decode_non_zero_vec(&mut &*buf, |r| decode_u32(r)),
        Err(Error::Zero),
    ));
}

/// Field layout of the first version of a schema: `struct Version1 { field1: u32 @1 }`.
#[derive(Debug, PartialEq)]
struct Version1 {
    field1: u32,
}

/// Field layout of the second version: `struct Version2 { field1: u32 @1, field2: string @2 }`.
#[derive(Debug, PartialEq)]
struct Version2 {
    field1: u32,
    field2: String,
}

impl Version2 {
    fn encode(&self, w: &mut Vec<u8>) {
        encode_field(w, FieldId::new(1, FieldEncoding::Varint), |w| {
            encode_u32(w, self.field1);
        });
        encode_field(w, FieldId::new(2, FieldEncoding::LengthPrefixed), |w| {
            encode_string(w, &self.field2);
        });
        encode_u32(w, END_MARKER);
    }
}

impl Version1 {
    fn decode(r: &mut &[u8]) -> Result<Self, Error> {
        let mut field1: Option<u32> = None;
        loop {
            let id = decode_id(r)?;
            match id.value {
                END_MARKER => break,
                1 => field1 = Some(decode_u32(r)?),
                _ => decode_skip(r, id.encoding)?,
            }
        }
        Ok(Self {
            field1: field1.ok_or(Error::MissingField {
                id: 1,
                name: Some("field1"),
            })?,
        })
    }
}

#[test]
fn evolution() {
    let mut buf = Vec::new();
    Version2 {
        field1: 5,
        field2: "Test".to_owned(),
    }
    .encode(&mut buf);

    println!("Version2: {buf:?}");

    let value = Version1::decode(&mut &*buf).unwrap();
    assert_eq!(5, value.field1);
}

#[test]
fn missing_field_reported() {
    let mut buf = Vec::new();
    encode_u32(&mut buf, END_MARKER);
    assert!(matches!(
        Version1::decode(&mut &*buf),
        Err(Error::MissingField { id: 1, .. })
    ));
}

#[test]
fn primitives_roundtrip() {
    let mut buf = Vec::new();
    encode_bool(&mut buf, true);
    encode_bool(&mut buf, false);
    encode_u8(&mut buf, 200);
    encode_i8(&mut buf, -3);
    encode_u32(&mut buf, 300);
    assert_eq!(vec![1, 0, 200, 0xfd, 0xac, 0x02], buf);
    let mut r = &*buf;
    assert!(decode_bool(&mut r).unwrap());
    assert!(!decode_bool(&mut r).unwrap());
    assert_eq!(200, decode_u8(&mut r).unwrap());
    assert_eq!(-3, decode_i8(&mut r).unwrap());
    assert_eq!(300, decode_u32(&mut r).unwrap());
    assert!(r.is_empty());
    assert!(matches!(decode_bool(&mut r), Err(Error::InsufficientData)));
}

#[test]
fn bytes_and_strings() {
    let mut buf = Vec::new();
    encode_bytes_std(&mut buf, &[9, 8, 7]);
    encode_string(&mut buf, "hé");
    assert_eq!(vec![3, 9, 8, 7, 3, b'h', 0xc3, 0xa9], buf);
    let mut r = &*buf;
    assert_eq!(vec![9, 8, 7], decode_bytes_std(&mut r).unwrap());
    assert_eq!("hé", decode_string(&mut r).unwrap());
    assert!(r.is_empty());
}

#[test]
fn decode_errors() {
    let mut r: &[u8] = &[5, 1, 2];
    assert!(matches!(decode_bytes_std(&mut r), Err(Error::InsufficientData)));
    let mut r: &[u8] = &[0x80];
    assert!(matches!(decode_bytes_std(&mut r), Err(Error::DecodeInt(_))));
    let mut r: &[u8] = &[2, 0xc3, 0x28];
    assert!(matches!(decode_string(&mut r), Err(Error::NonUtf8(_))));
    let mut r: &[u8] = &[0x0f];
    assert!(matches!(decode_id(&mut r), Err(Error::UnknownEncoding(0x0f))));
    assert_eq!(
        "not enough remaining data in the buffer to decode the value",
        Error::InsufficientData.message()
    );
}

#[test]
fn identifiers() {
    let mut buf = Vec::new();
    encode_id(&mut buf, FieldId::new(3, FieldEncoding::Fixed4));
    encode_variant_id(&mut buf, VariantId::new(7));
    assert_eq!(vec![3 << 3 | 3, 7], buf);
    let mut r = &*buf;
    let id = decode_id(&mut r).unwrap();
    assert_eq!(3, id.value);
    assert!(id.encoding == FieldEncoding::Fixed4);
    assert_eq!(7, decode_variant_id(&mut r).unwrap().value);
}

#[test]
fn skipping() {
    let mut buf = Vec::new();
    encode_u32(&mut buf, 100_000);
    encode_bytes_std(&mut buf, &[1, 2, 3, 4]);
    buf.extend_from_slice(&[1, 2, 3, 4, 5]);
    let mut r = &*buf;
    decode_skip(&mut r, FieldEncoding::Varint).unwrap();
    decode_skip(&mut r, FieldEncoding::LengthPrefixed).unwrap();
    decode_skip(&mut r, FieldEncoding::Fixed4).unwrap();
    decode_skip(&mut r, FieldEncoding::Fixed1).unwrap();
    assert!(r.is_empty());
    assert!(matches!(
        decode_skip(&mut r, FieldEncoding::Fixed8),
        Err(Error::InsufficientData)
    ));
    let mut r: &[u8] = &[0x80, 0x80];
    assert!(matches!(
        decode_skip(&mut r, FieldEncoding::Varint),
        Err(Error::InsufficientData)
    ));
}

#[test]
fn options_and_fields() {
    let mut buf = Vec::new();
    encode_option(&mut buf, &Some(5u32), |w, v| encode_u32(w, *v));
    encode_option(&mut buf, &None::<u32>, |w, v| encode_u32(w, *v));
    encode_field_option(&mut buf, FieldId::new(2, FieldEncoding::Varint), &None::<u32>, |w, v| {
        encode_u32(w, *v)
    });
    assert_eq!(vec![1, 5, 0], buf);
    let mut r = &*buf;
    assert_eq!(Some(5), decode_option(&mut r, |r| decode_u32(r)).unwrap());
    assert_eq!(None, decode_option(&mut r, |r| decode_u32(r)).unwrap());
    let values = vec![1u32, 300];
    let mut buf = Vec::new();
    encode_vec(&mut buf, &values, |v| size_u32(*v), |w, v| encode_u32(w, *v));
    assert_eq!(vec![3, 1, 0xac, 0x02], buf);
    assert_eq!(values, decode_vec(&mut &*buf, |r| decode_u32(r)).unwrap());
}

#[test]
fn sizes() {
    assert_eq!(5, size_string("test"));
    assert_eq!(4, size_bytes_std(&[1, 2, 3]));
    assert_eq!(1 + 1 + 2, size_vec(&[1u32, 300], |v| size_u32(*v)));
    assert_eq!(1 + 2, size_array(&[1u32, 2], |v| size_u32(*v)));
    assert_eq!(1, size_option::<u32, _>(None, |v| size_u32(*v)));
    assert_eq!(3, size_option(Some(&300u32), |v| size_u32(*v)));
    assert_eq!(1, size_field_id(15));
    assert_eq!(2, size_field_id(16));
    assert_eq!(1, size_variant_id(127));
    assert_eq!(4, size_field(1, || 3));
    assert_eq!(0, size_field_option::<u32, _>(1, None, |v| size_u32(*v)));
    assert_eq!(2, size_field_option(1, Some(&5u32), |v| size_u32(*v)));
}

#[test]
fn container_size_counts_the_byte_length_prefix() {
    // 64 elements of two bytes each: 128 bytes, whose length takes two bytes as _Varint_.
    let values = [128u32; 64];
    let mut buf = Vec::new();
    encode_vec(&mut buf, &values, |v| size_u32(*v), |w, v| encode_u32(w, *v));
    assert_eq!(130, buf.len());
    assert_eq!(buf.len(), size_vec(&values, |v| size_u32(*v)));
    assert_eq!(130, size_array(&values, |v| size_u32(*v)));
}

#[test]
fn encode_and_decode_traits_roundtrip() {
    let mut w = Vec::new();
    300u32.encode(&mut w);
    (-3i64).encode(&mut w);
    true.encode(&mut w);
    7u8.encode(&mut w);
    assert_eq!(vec![0xac, 0x02, 0x05, 0x01, 0x07], w);
    assert_eq!(2, 300u32.size());
    let mut r = &*w;
    assert_eq!(300, u32::decode(&mut r).unwrap());
    assert_eq!(-3, i64::decode(&mut r).unwrap());
    assert!(bool::decode(&mut r).unwrap());
    assert_eq!(7, u8::decode(&mut r).unwrap());
    assert!(u16::decode(&mut r).is_err());
}

#[test]
fn array_roundtrip() {
    let mut buf = Vec::new();
    encode_array(&mut buf, &[7u32, 300, 70_000], |v| size_u32(*v), |w, v| encode_u32(w, *v));
    let mut r = &*buf;
    let array: [u32; 3] = decode_array(&mut r, |r| decode_u32(r)).unwrap();
    assert_eq!(array, [7, 300, 70_000]);
    assert!(r.is_empty());
}

#[test]
fn array_skips_items_beyond_its_length() {
    let mut buf = Vec::new();
    encode_array(&mut buf, &[1u32, 2, 3, 4], |v| size_u32(*v), |w, v| encode_u32(w, *v));
    buf.push(0xAA);
    let mut r = &*buf;
    let array: [u32; 2] = decode_array(&mut r, |r| decode_u32(r)).unwrap();
    assert_eq!(array, [1, 2]);
    assert_eq!(r, &[0xAA]);
}

#[test]
fn array_with_short_data_is_an_error() {
    let buf = [10u8, 1, 2];
    let mut r = &buf[..];
    let res: Result<[u32; 2], Error> = decode_array(&mut r, |r| decode_u32(r));
    assert!(matches!(res, Err(Error::InsufficientData)));
}

#[test]
fn array_with_fewer_items_is_an_error() {
    let buf = vec![0u8];
    let res: Result<[u32; 1], Error> = decode_array(&mut &*buf, |r| decode_u32(r));
    assert!(matches!(res, Err(Error::InsufficientData)));
}
