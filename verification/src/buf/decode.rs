//! Decoders, which read a value from the front of a byte slice and move the slice past it.

use crate::varint::{
    self, modulus_u128, modulus_u16, modulus_u32, modulus_u64, spec_decode, spec_encode, unzigzag,
    varint_end, zigzag, DecodeIntError,
};
use super::encode::{wire_bool, wire_bytes, wire_field_id, wire_string};
use super::size::{sizes_of, sum_sizes};
use crate::{
    bytes_content, spec_encoding_from_u32, spec_field_id_u32, FieldEncoding, FieldId, NonZero,
    VariantId,
};
use vstd::prelude::*;

verus! {

/// Declaration of the error that `String::from_utf8` returns for invalid UTF-8.
#[verifier::external_type_specification]
#[verifier::external_body]
pub struct ExFromUtf8Error(std::string::FromUtf8Error);

/// Calls `String::from_utf8`, which (as its documentation states) turns the bytes into a string
/// when they are valid UTF-8 and returns an error otherwise. The contract claims that the string
/// holds exactly the characters that the bytes encode.
#[verifier::external_body]
fn string_from_utf8(bytes: Vec<u8>) -> (res: Result<String, std::string::FromUtf8Error>)
    ensures
        res.is_ok() <==> vstd::utf8::valid_utf8(bytes@),
        res matches Ok(s) ==> s@ == vstd::utf8::decode_utf8(bytes@),
{
    String::from_utf8(bytes)
}

/// Error that can happen while trying to decode a Mabo payload.
#[derive(Debug)]
pub enum Error {
    /// The passed buffer did not contain enough data to fully decode the payload.
    InsufficientData,
    /// A _Varint_ integer failed to decode.
    DecodeInt(DecodeIntError),
    /// A string value was not encoded in valid UTF-8.
    NonUtf8(std::string::FromUtf8Error),
    /// The field of a struct or enum non-optional in the schema, but is missing from the payload.
    MissingField {
        /// Identifier of the field.
        id: u32,
        /// Name of the field (if it is a named field).
        name: Option<&'static str>,
    },
    /// An enum variant was found that does not exist in the schema.
    UnknownVariant(u32),
    /// An unknown field encoding was found.
    UnknownEncoding(u32),
    /// The value of a non-zero field was actually zero.
    Zero,
}

impl Error {
    /// Human readable description of the error.
    pub fn message(&self) -> (s: &'static str)
        ensures
            self matches Error::InsufficientData ==> s@
                == "not enough remaining data in the buffer to decode the value"@,
            self matches Error::DecodeInt(_) ==> s@ == "failed to decode a varint integer"@,
            self matches Error::NonUtf8(_) ==> s@ == "string is not valid UTF-8"@,
            self matches Error::MissingField { .. } ==> s@
                == "required field is missing from the payload"@,
            self matches Error::UnknownVariant(_) ==> s@
                == "encountered an unknown enum variant"@,
            self matches Error::UnknownEncoding(_) ==> s@
                == "encountered an unknown field encoding"@,
            self matches Error::Zero ==> s@ == "non-zero value was found to be zero"@,
    {
        match self {
            Error::InsufficientData => "not enough remaining data in the buffer to decode the value",
            Error::DecodeInt(_) => "failed to decode a varint integer",
            Error::NonUtf8(_) => "string is not valid UTF-8",
            Error::MissingField { .. } => "required field is missing from the payload",
            Error::UnknownVariant(_) => "encountered an unknown enum variant",
            Error::UnknownEncoding(_) => "encountered an unknown field encoding",
            Error::Zero => "non-zero value was found to be zero",
        }
    }
}

/// Special field identifier that marks the end of a struct or enum variant.
pub const END_MARKER: u32 = 0;

// ------------------------------------------------------------------------------------------------
// Model of the decoders
// ------------------------------------------------------------------------------------------------

/// The `u64` _Varint_ at the front of the bytes and its length.
pub open spec fn spec_read_u64(s: Seq<u8>) -> Option<(nat, nat)> {
    match spec_decode(s, 10) {
        Some((v, n)) => Some((v % modulus_u64(), n)),
        None => None,
    }
}

/// A byte array at the front of the bytes: its content and the bytes after it.
pub open spec fn spec_read_bytes(s: Seq<u8>) -> Option<(Seq<u8>, Seq<u8>)> {
    match spec_read_u64(s) {
        Some((len, n)) => if n + len <= s.len() {
            Some((s.subrange(n as int, (n + len) as int), s.skip((n + len) as int)))
        } else {
            None
        },
        None => None,
    }
}

/// The bytes that are left after skipping a field of the given encoding at the front, if the
/// bytes hold such a field.
pub open spec fn spec_skip(s: Seq<u8>, encoding: FieldEncoding) -> Option<Seq<u8>> {
    match encoding {
        FieldEncoding::Varint => match varint_end(s) {
            Some(n) => Some(s.skip(n as int)),
            None => None,
        },
        FieldEncoding::LengthPrefixed => match spec_read_bytes(s) {
            Some((_, rest)) => Some(rest),
            None => None,
        },
        FieldEncoding::Fixed1 => if s.len() >= 1 {
            Some(s.skip(1))
        } else {
            None
        },
        FieldEncoding::Fixed4 => if s.len() >= 4 {
            Some(s.skip(4))
        } else {
            None
        },
        FieldEncoding::Fixed8 => if s.len() >= 8 {
            Some(s.skip(8))
        } else {
            None
        },
    }
}

// ------------------------------------------------------------------------------------------------
// Helpers
// ------------------------------------------------------------------------------------------------

/// Move the reader `n` bytes forward.
fn advance(r: &mut &[u8], n: usize)
    requires
        n <= old(r)@.len(),
    ensures
        final(r)@ == old(r)@.skip(n as int),
{
    *r = vstd::slice::slice_subrange(*r, n, r.len());
}

/// Copy the first `n` bytes of the reader into a vector, and move the reader past them.
fn read_vec(r: &mut &[u8], n: usize) -> (res: Vec<u8>)
    requires
        n <= old(r)@.len(),
    ensures
        res@ == old(r)@.take(n as int),
        final(r)@ == old(r)@.skip(n as int),
{
    let res = vstd::slice::slice_to_vec(vstd::slice::slice_subrange(*r, 0, n));
    advance(r, n);
    res
}

// ------------------------------------------------------------------------------------------------
// Fixed width values
// ------------------------------------------------------------------------------------------------

/// Decode a Mabo `bool` (`true` or `false`) value: any byte other than `0` is `true`.
///
/// # Errors
///
/// Will return `Err` if the buffer does not have enough remaining data to read the value.
pub fn decode_bool(r: &mut &[u8]) -> (res: Result<bool, Error>)
    ensures
        old(r)@.len() == 0 ==> (res matches Err(Error::InsufficientData)) && final(r)@ == old(r)@,
        old(r)@.len() > 0 ==> res == Ok::<bool, Error>(old(r)@[0] != 0) && final(r)@ == old(
            r,
        )@.skip(1),
{
    if r.len() < 1 {
        return Err(Error::InsufficientData);
    }
    let b = r[0];
    advance(r, 1);
    Ok(b != 0)
}

/// Decode a Mabo `u8` integer.
///
/// # Errors
///
/// Will return `Err` if the buffer does not have enough remaining data to read the value.
pub fn decode_u8(r: &mut &[u8]) -> (res: Result<u8, Error>)
    ensures
        old(r)@.len() == 0 ==> (res matches Err(Error::InsufficientData)) && final(r)@ == old(r)@,
        old(r)@.len() > 0 ==> res == Ok::<u8, Error>(old(r)@[0]) && final(r)@ == old(r)@.skip(1),
{
    if r.len() < 1 {
        return Err(Error::InsufficientData);
    }
    let b = r[0];
    advance(r, 1);
    Ok(b)
}

/// Decode a Mabo `i8` integer (its two's complement byte).
///
/// # Errors
///
/// Will return `Err` if the buffer does not have enough remaining data to read the value.
pub fn decode_i8(r: &mut &[u8]) -> (res: Result<i8, Error>)
    ensures
        old(r)@.len() == 0 ==> (res matches Err(Error::InsufficientData)) && final(r)@ == old(r)@,
        old(r)@.len() > 0 ==> res == Ok::<i8, Error>(old(r)@[0] as i8) && final(r)@ == old(
            r,
        )@.skip(1),
{
    if r.len() < 1 {
        return Err(Error::InsufficientData);
    }
    let b = r[0];
    advance(r, 1);
    Ok(b as i8)
}


/// Decode a Mabo `u16` integer.
///
/// # Errors
///
/// Will return `Err` if the _Varint_ decoding fails due to a missing end marker.
pub fn decode_u16(r: &mut &[u8]) -> (res: Result<u16, Error>)
    ensures
        match spec_decode(old(r)@, 3) {
            Some((v, n)) => res == Ok::<u16, Error>((v % modulus_u16()) as u16) && final(r)@ == old(
                r,
            )@.skip(n as int),
            None => res matches Err(Error::DecodeInt(_)) && final(r)@ == old(r)@,
        },
{
    proof {
        varint::lemma_decode_len(r@, 3);
    }
    match varint::decode_u16(*r) {
        Ok((value, consumed)) => {
            advance(r, consumed);
            Ok(value)
        },
        Err(e) => Err(Error::DecodeInt(e)),
    }
}

/// Decode a Mabo `i16` integer.
///
/// # Errors
///
/// Will return `Err` if the _Varint_ decoding fails due to a missing end marker.
pub fn decode_i16(r: &mut &[u8]) -> (res: Result<i16, Error>)
    ensures
        match spec_decode(old(r)@, 3) {
            Some((v, n)) => res == Ok::<i16, Error>(unzigzag(v % modulus_u16()) as i16)
                && final(r)@ == old(r)@.skip(n as int),
            None => res matches Err(Error::DecodeInt(_)) && final(r)@ == old(r)@,
        },
{
    proof {
        varint::lemma_decode_len(r@, 3);
    }
    match varint::decode_i16(*r) {
        Ok((value, consumed)) => {
            advance(r, consumed);
            Ok(value)
        },
        Err(e) => Err(Error::DecodeInt(e)),
    }
}

/// Decode a Mabo `u32` integer.
///
/// # Errors
///
/// Will return `Err` if the _Varint_ decoding fails due to a missing end marker.
pub fn decode_u32(r: &mut &[u8]) -> (res: Result<u32, Error>)
    ensures
        match spec_decode(old(r)@, 5) {
            Some((v, n)) => res == Ok::<u32, Error>((v % modulus_u32()) as u32) && final(r)@ == old(
                r,
            )@.skip(n as int),
            None => res matches Err(Error::DecodeInt(_)) && final(r)@ == old(r)@,
        },
{
    proof {
        varint::lemma_decode_len(r@, 5);
    }
    match varint::decode_u32(*r) {
        Ok((value, consumed)) => {
            advance(r, consumed);
            Ok(value)
        },
        Err(e) => Err(Error::DecodeInt(e)),
    }
}

/// Decode a Mabo `i32` integer.
///
/// # Errors
///
/// Will return `Err` if the _Varint_ decoding fails due to a missing end marker.
pub fn decode_i32(r: &mut &[u8]) -> (res: Result<i32, Error>)
    ensures
        match spec_decode(old(r)@, 5) {
            Some((v, n)) => res == Ok::<i32, Error>(unzigzag(v % modulus_u32()) as i32)
                && final(r)@ == old(r)@.skip(n as int),
            None => res matches Err(Error::DecodeInt(_)) && final(r)@ == old(r)@,
        },
{
    proof {
        varint::lemma_decode_len(r@, 5);
    }
    match varint::decode_i32(*r) {
        Ok((value, consumed)) => {
            advance(r, consumed);
            Ok(value)
        },
        Err(e) => Err(Error::DecodeInt(e)),
    }
}

/// Decode a Mabo `u64` integer.
///
/// # Errors
///
/// Will return `Err` if the _Varint_ decoding fails due to a missing end marker.
pub fn decode_u64(r: &mut &[u8]) -> (res: Result<u64, Error>)
    ensures
        match spec_decode(old(r)@, 10) {
            Some((v, n)) => res == Ok::<u64, Error>((v % modulus_u64()) as u64) && final(r)@ == old(
                r,
            )@.skip(n as int),
            None => res matches Err(Error::DecodeInt(_)) && final(r)@ == old(r)@,
        },
{
    proof {
        varint::lemma_decode_len(r@, 10);
    }
    match varint::decode_u64(*r) {
        Ok((value, consumed)) => {
            advance(r, consumed);
            Ok(value)
        },
        Err(e) => Err(Error::DecodeInt(e)),
    }
}

/// Decode a Mabo `i64` integer.
///
/// # Errors
///
/// Will return `Err` if the _Varint_ decoding fails due to a missing end marker.
pub fn decode_i64(r: &mut &[u8]) -> (res: Result<i64, Error>)
    ensures
        match spec_decode(old(r)@, 10) {
            Some((v, n)) => res == Ok::<i64, Error>(unzigzag(v % modulus_u64()) as i64)
                && final(r)@ == old(r)@.skip(n as int),
            None => res matches Err(Error::DecodeInt(_)) && final(r)@ == old(r)@,
        },
{
    proof {
        varint::lemma_decode_len(r@, 10);
    }
    match varint::decode_i64(*r) {
        Ok((value, consumed)) => {
            advance(r, consumed);
            Ok(value)
        },
        Err(e) => Err(Error::DecodeInt(e)),
    }
}

/// Decode a Mabo `u128` integer.
///
/// # Errors
///
/// Will return `Err` if the _Varint_ decoding fails due to a missing end marker.
pub fn decode_u128(r: &mut &[u8]) -> (res: Result<u128, Error>)
    ensures
        match spec_decode(old(r)@, 19) {
            Some((v, n)) => res == Ok::<u128, Error>((v % modulus_u128()) as u128) && final(r)@ == old(
                r,
            )@.skip(n as int),
            None => res matches Err(Error::DecodeInt(_)) && final(r)@ == old(r)@,
        },
{
    proof {
        varint::lemma_decode_len(r@, 19);
    }
    match varint::decode_u128(*r) {
        Ok((value, consumed)) => {
            advance(r, consumed);
            Ok(value)
        },
        Err(e) => Err(Error::DecodeInt(e)),
    }
}

/// Decode a Mabo `i128` integer.
///
/// # Errors
///
/// Will return `Err` if the _Varint_ decoding fails due to a missing end marker.
pub fn decode_i128(r: &mut &[u8]) -> (res: Result<i128, Error>)
    ensures
        match spec_decode(old(r)@, 19) {
            Some((v, n)) => res == Ok::<i128, Error>(unzigzag(v % modulus_u128()) as i128)
                && final(r)@ == old(r)@.skip(n as int),
            None => res matches Err(Error::DecodeInt(_)) && final(r)@ == old(r)@,
        },
{
    proof {
        varint::lemma_decode_len(r@, 19);
    }
    match varint::decode_i128(*r) {
        Ok((value, consumed)) => {
            advance(r, consumed);
            Ok(value)
        },
        Err(e) => Err(Error::DecodeInt(e)),
    }
}

// ------------------------------------------------------------------------------------------------
// Byte arrays and strings
// ------------------------------------------------------------------------------------------------

/// Decode a Mabo `bytes` raw byte array (represented as default Rust byte vector).
///
/// # Errors
///
/// Will return `Err` if the length prefix fails to decode, or the buffer does not have enough
/// remaining data to read the value.
pub fn decode_bytes_std(r: &mut &[u8]) -> (res: Result<Vec<u8>, Error>)
    ensures
        match spec_read_u64(old(r)@) {
            None => res matches Err(Error::DecodeInt(_)) && final(r)@ == old(r)@,
            Some((len, n)) => if n + len <= old(r)@.len() {
                res matches Ok(b) && spec_read_bytes(old(r)@) == Some((b@, final(r)@))
            } else {
                res matches Err(Error::InsufficientData) && final(r)@ == old(r)@.skip(n as int)
            },
        },
{
    let len = decode_u64(r)?;
    if (r.len() as u64) < len {
        return Err(Error::InsufficientData);
    }
    let res = read_vec(r, len as usize);
    proof {
        varint::lemma_decode_len(old(r)@, 10);
        let n = spec_read_u64(old(r)@).unwrap().1;
        assert(res@ =~= old(r)@.subrange(n as int, n + len));
        assert(r@ =~= old(r)@.skip(n + len));
    }
    Ok(res)
}

/// `Buf::copy_to_bytes` on a byte slice: the first `len` bytes, copied into a `bytes::Bytes`
/// buffer, with the slice advanced past them.
#[verifier::external_body]
fn slice_copy_to_bytes(r: &mut &[u8], len: usize) -> (b: bytes::Bytes)
    requires
        len <= old(r)@.len(),
    ensures
        bytes_content(b) == old(r)@.take(len as int),
        final(r)@ == old(r)@.skip(len as int),
{
    bytes::Buf::copy_to_bytes(r, len)
}

/// Decode a Mabo `bytes` raw byte array (represented as a `bytes::Bytes` buffer).
///
/// # Errors
///
/// Will return `Err` if the length prefix fails to decode, or the buffer does not have enough
/// remaining data to read the value.
pub fn decode_bytes_bytes(r: &mut &[u8]) -> (res: Result<bytes::Bytes, Error>)
    ensures
        match spec_read_u64(old(r)@) {
            None => res matches Err(Error::DecodeInt(_)) && final(r)@ == old(r)@,
            Some((len, n)) => if n + len <= old(r)@.len() {
                res matches Ok(b) && spec_read_bytes(old(r)@) == Some((bytes_content(b), final(r)@))
            } else {
                res matches Err(Error::InsufficientData) && final(r)@ == old(r)@.skip(n as int)
            },
        },
{
    let len = decode_u64(r)?;
    if (r.len() as u64) < len {
        return Err(Error::InsufficientData);
    }
    let ghost mid = r@;
    let res = slice_copy_to_bytes(r, len as usize);
    proof {
        varint::lemma_decode_len(old(r)@, 10);
        let n = spec_read_u64(old(r)@).unwrap().1;
        assert(mid.take(len as int) =~= old(r)@.subrange(n as int, n + len));
        assert(r@ =~= old(r)@.skip(n + len));
    }
    Ok(res)
}

/// Decode a Mabo `non_zero<bytes>` (represented as `NonZero<bytes::Bytes>`).
///
/// # Errors
///
/// Will return `Err` if the length prefix fails to decode, the byte array is empty, or the buffer
/// does not have enough remaining data to read the value.
pub fn decode_non_zero_bytes_bytes(r: &mut &[u8]) -> (res: Result<NonZero<bytes::Bytes>, Error>)
    ensures
        match spec_read_u64(old(r)@) {
            None => res matches Err(Error::DecodeInt(_)) && final(r)@ == old(r)@,
            Some((len, n)) => if len == 0 {
                res matches Err(Error::Zero) && final(r)@ == old(r)@.skip(n as int)
            } else if n + len <= old(r)@.len() {
                res matches Ok(b) && spec_read_bytes(old(r)@) == Some(
                    (bytes_content(b.inner()), final(r)@),
                )
            } else {
                res matches Err(Error::InsufficientData) && final(r)@ == old(r)@.skip(n as int)
            },
        },
{
    let len = decode_u64(r)?;
    if len == 0 {
        return Err(Error::Zero);
    }
    if (r.len() as u64) < len {
        return Err(Error::InsufficientData);
    }
    let ghost mid = r@;
    let bytes = slice_copy_to_bytes(r, len as usize);
    proof {
        varint::lemma_decode_len(old(r)@, 10);
        let n = spec_read_u64(old(r)@).unwrap().1;
        assert(mid.take(len as int) =~= old(r)@.subrange(n as int, n + len));
        assert(r@ =~= old(r)@.skip(n + len));
    }
    match NonZero::<bytes::Bytes>::new(bytes) {
        Some(nz) => Ok(nz),
        None => Err(Error::Zero),
    }
}

/// Decode a UTF-8 encoded Mabo `string`.
///
/// # Errors
///
/// Will return `Err` if the buffer does not have enough remaining data to read the value, or the
/// string is not valid UTF-8.
pub fn decode_string(r: &mut &[u8]) -> (res: Result<String, Error>)
    ensures
        match spec_read_u64(old(r)@) {
            None => res matches Err(Error::DecodeInt(_)) && final(r)@ == old(r)@,
            Some((len, n)) => if n + len <= old(r)@.len() {
                let (b, rest) = spec_read_bytes(old(r)@).unwrap();
                &&& final(r)@ == rest
                &&& if vstd::utf8::valid_utf8(b) {
                    res matches Ok(s) && s@ == vstd::utf8::decode_utf8(b)
                } else {
                    res matches Err(Error::NonUtf8(_))
                }
            } else {
                res matches Err(Error::InsufficientData) && final(r)@ == old(r)@.skip(n as int)
            },
        },
{
    let bytes = decode_bytes_std(r)?;
    match string_from_utf8(bytes) {
        Ok(s) => Ok(s),
        Err(e) => Err(Error::NonUtf8(e)),
    }
}

/// Decode a Mabo `non_zero<bytes>` (represented as `NonZero<Vec<u8>>`).
///
/// # Errors
///
/// Will return `Err` if the length prefix fails to decode, the byte array is empty, or the buffer
/// does not have enough remaining data to read the value.
pub fn decode_non_zero_bytes_std(r: &mut &[u8]) -> (res: Result<NonZero<Vec<u8>>, Error>)
    ensures
        match spec_read_u64(old(r)@) {
            None => res matches Err(Error::DecodeInt(_)) && final(r)@ == old(r)@,
            Some((len, n)) => if len == 0 {
                res matches Err(Error::Zero) && final(r)@ == old(r)@.skip(n as int)
            } else if n + len <= old(r)@.len() {
                res matches Ok(b) && spec_read_bytes(old(r)@) == Some((b.inner()@, final(r)@))
            } else {
                res matches Err(Error::InsufficientData) && final(r)@ == old(r)@.skip(n as int)
            },
        },
{
    let len = decode_u64(r)?;
    if len == 0 {
        return Err(Error::Zero);
    }
    if (r.len() as u64) < len {
        return Err(Error::InsufficientData);
    }
    let bytes = read_vec(r, len as usize);
    proof {
        varint::lemma_decode_len(old(r)@, 10);
        let n = spec_read_u64(old(r)@).unwrap().1;
        assert(bytes@ =~= old(r)@.subrange(n as int, n + len));
        assert(r@ =~= old(r)@.skip(n + len));
    }
    match NonZero::<Vec<u8>>::new(bytes) {
        Some(nz) => Ok(nz),
        None => Err(Error::Zero),
    }
}

/// Decode a Mabo `non_zero<string>`.
///
/// # Errors
///
/// Will return `Err` if the buffer does not have enough remaining data to read the value, the
/// string is not valid UTF-8, or the string is empty.
pub fn decode_non_zero_string(r: &mut &[u8]) -> (res: Result<NonZero<String>, Error>)
    ensures
        match spec_read_u64(old(r)@) {
            None => res matches Err(Error::DecodeInt(_)) && final(r)@ == old(r)@,
            Some((len, n)) => if len == 0 {
                res matches Err(Error::Zero) && final(r)@ == old(r)@.skip(n as int)
            } else if n + len <= old(r)@.len() {
                let (b, rest) = spec_read_bytes(old(r)@).unwrap();
                &&& final(r)@ == rest
                &&& if vstd::utf8::valid_utf8(b) {
                    res matches Ok(s) && s.inner()@ == vstd::utf8::decode_utf8(b)
                } else {
                    res matches Err(Error::NonUtf8(_))
                }
            } else {
                res matches Err(Error::InsufficientData) && final(r)@ == old(r)@.skip(n as int)
            },
        },
{
    let bytes = decode_non_zero_bytes_std(r)?;
    let ghost b = bytes.inner()@;
    match string_from_utf8(bytes.into_inner()) {
        Ok(s) => {
            proof {
                lemma_decode_utf8_nonempty(b);
            }
            match NonZero::<String>::new(s) {
                Some(nz) => Ok(nz),
                None => Err(Error::Zero),
            }
        },
        Err(e) => Err(Error::NonUtf8(e)),
    }
}

/// Valid non-empty UTF-8 decodes to a non-empty string.
proof fn lemma_decode_utf8_nonempty(b: Seq<u8>)
    requires
        b.len() > 0,
        vstd::utf8::valid_utf8(b),
    ensures
        vstd::utf8::decode_utf8(b).len() > 0,
{
}

// ------------------------------------------------------------------------------------------------
// Containers
// ------------------------------------------------------------------------------------------------

/// The bytes of all the pieces, one after the other.
pub open spec fn concat_all(pieces: Seq<Seq<u8>>) -> Seq<u8>
    decreases pieces.len(),
{
    if pieces.len() == 0 {
        Seq::empty()
    } else {
        pieces[0] + concat_all(pieces.drop_first())
    }
}

/// Pieces laid one after another, with one more piece at the end.
proof fn lemma_concat_all_push(pieces: Seq<Seq<u8>>, piece: Seq<u8>)
    ensures
        concat_all(pieces.push(piece)) == concat_all(pieces) + piece,
    decreases pieces.len(),
{
    if pieces.len() == 0 {
        let one = pieces.push(piece);
        assert(one.drop_first() =~= Seq::<Seq<u8>>::empty());
        assert(concat_all(one.drop_first()) == Seq::<u8>::empty());
        assert(one[0] == piece);
        assert(concat_all(one) == piece + Seq::<u8>::empty());
        assert(piece + Seq::<u8>::empty() =~= piece);
        assert(concat_all(pieces) =~= Seq::<u8>::empty());
        assert(Seq::<u8>::empty() + piece =~= piece);
    } else {
        assert(pieces.push(piece).drop_first() =~= pieces.drop_first().push(piece));
        lemma_concat_all_push(pieces.drop_first(), piece);
        assert(concat_all(pieces.push(piece)) =~= concat_all(pieces) + piece);
    }
}

/// What encoding the items of a container writes is the items' pieces, one after the other:
/// where `encode` appends `wire(x)` for an item `x` and `size` reports the length of that piece,
/// a run of `encode` over the items (as [`encode_vec`](super::encode::encode_vec) and
/// [`encode_array`](super::encode::encode_array) make it, after the length prefix) adds
/// `concat_all` of the pieces, and the sizes add up to its length: the length prefix that those
/// functions write is the count of bytes that [`decode_vec`] and [`decode_array`] then read.
pub proof fn law_items_written<T, S: Fn(&T) -> usize, E: Fn(&mut Vec<u8>, &T)>(
    size: S,
    encode: E,
    wire: spec_fn(T) -> Seq<u8>,
    vals: Seq<T>,
    rs: Seq<usize>,
    states: Seq<Seq<u8>>,
)
    requires
        forall|m: &mut Vec<u8>, x: &T|
            #[trigger] encode.ensures((m, x), ()) ==> (*final(m))@ == (*m)@ + wire(*x),
        forall|x: &T, n: usize| #[trigger] size.ensures((x,), n) ==> n == wire(*x).len(),
        sizes_of(size, vals, rs),
        states.len() == vals.len() + 1,
        forall|i: int|
            0 <= i < vals.len() ==> exists|m: &mut Vec<u8>|
                (*m)@ == #[trigger] states[i] && (*final(m))@ == states[i + 1] && encode.ensures(
                    (m, &vals[i]),
                    (),
                ),
    ensures
        states.last() == states[0] + concat_all(vals.map_values(wire)),
        sum_sizes(rs) == concat_all(vals.map_values(wire)).len(),
{
    assert forall|i: int| 0 <= i < vals.len() implies states[i + 1] == states[i] + wire(
        #[trigger] vals[i],
    ) && rs[i] == wire(vals[i]).len() by {
        let m = choose|m: &mut Vec<u8>|
            (*m)@ == states[i] && (*final(m))@ == states[i + 1] && encode.ensures((m, &vals[i]), ());
        assert(encode.ensures((m, &vals[i]), ()));
        assert(size.ensures((&vals[i],), rs[i]));
    }
    lemma_items_written(wire, vals, rs, states, vals.len() as int);
    assert(vals.take(vals.len() as int) =~= vals);
    assert(rs.take(vals.len() as int) =~= rs);
}

/// The size that [`size_vec`](super::size::size_vec) and [`size_array`](super::size::size_array)
/// report is the count of bytes that [`encode_vec`](super::encode::encode_vec) and
/// [`encode_array`](super::encode::encode_array) write for the same items: where `size`
/// reports the length of the piece that `encode` appends for an item, the length prefix and the
/// items' pieces together take `spec_encode(S).len() + S` bytes, `S` the sum of the sizes.
pub proof fn law_size_counts_written<T, S: Fn(&T) -> usize, E: Fn(&mut Vec<u8>, &T)>(
    size: S,
    encode: E,
    wire: spec_fn(T) -> Seq<u8>,
    vals: Seq<T>,
    written: Seq<usize>,
    reported: Seq<usize>,
    states: Seq<Seq<u8>>,
    before: Seq<u8>,
)
    requires
        forall|m: &mut Vec<u8>, x: &T|
            #[trigger] encode.ensures((m, x), ()) ==> (*final(m))@ == (*m)@ + wire(*x),
        forall|x: &T, n: usize| #[trigger] size.ensures((x,), n) ==> n == wire(*x).len(),
        sizes_of(size, vals, written),
        sizes_of(size, vals, reported),
        states.len() == vals.len() + 1,
        states[0] == before + spec_encode(sum_sizes(written)),
        forall|i: int|
            0 <= i < vals.len() ==> exists|m: &mut Vec<u8>|
                (*m)@ == #[trigger] states[i] && (*final(m))@ == states[i + 1] && encode.ensures(
                    (m, &vals[i]),
                    (),
                ),
    ensures
        states.last().len() - before.len() == spec_encode(sum_sizes(reported)).len() + sum_sizes(
            reported,
        ),
{
    law_items_written(size, encode, wire, vals, written, states);
    assert forall|i: int| 0 <= i < vals.len() implies written[i] == reported[i] by {
        assert(size.ensures((&vals[i],), written[i]));
        assert(size.ensures((&vals[i],), reported[i]));
    }
    assert(written =~= reported);
}

/// The first `k` steps of a run that appends each item's piece.
proof fn lemma_items_written<T>(
    wire: spec_fn(T) -> Seq<u8>,
    vals: Seq<T>,
    rs: Seq<usize>,
    states: Seq<Seq<u8>>,
    k: int,
)
    requires
        rs.len() == vals.len(),
        states.len() == vals.len() + 1,
        forall|i: int| 0 <= i < vals.len() ==> states[i + 1] == states[i] + wire(
            #[trigger] vals[i],
        ) && rs[i] == wire(vals[i]).len(),
        0 <= k <= vals.len(),
    ensures
        states[k] == states[0] + concat_all(vals.take(k).map_values(wire)),
        sum_sizes(rs.take(k)) == concat_all(vals.take(k).map_values(wire)).len(),
    decreases k,
{
    if k == 0 {
        assert(vals.take(0).map_values(wire) =~= Seq::<Seq<u8>>::empty());
        assert(rs.take(0) =~= Seq::<usize>::empty());
        assert(states[0] + Seq::<u8>::empty() =~= states[0]);
    } else {
        let i = k - 1;
        lemma_items_written(wire, vals, rs, states, i);
        assert(vals.take(k).map_values(wire) =~= vals.take(i).map_values(wire).push(wire(vals[i])));
        lemma_concat_all_push(vals.take(i).map_values(wire), wire(vals[i]));
        assert(rs.take(k).drop_last() =~= rs.take(i));
        assert(states[k] =~= states[0] + concat_all(vals.take(k).map_values(wire)));
    }
}

/// A run of successful decodes that starts on the pieces of encoded items, where decoding the
/// bytes of each item (whatever follows them) gives that item and leaves what follows, keeps to
/// the pieces: after `k` steps it stands at the pieces from `k` on, and has given the first `k`
/// items.
proof fn lemma_chain_follows<T, D: Fn(&mut &[u8]) -> Result<T, Error>>(
    decode: D,
    states: Seq<Seq<u8>>,
    got: Seq<T>,
    vals: Seq<T>,
    wires: Seq<Seq<u8>>,
    k: int,
)
    requires
        forall|m: &mut &[u8], out: Result<T, Error>|
            decode.ensures((m,), out) ==> (out.is_ok() ==> (*final(m))@.len() < (*m)@.len()),
        wires.len() == vals.len(),
        forall|i: int, rest: Seq<u8>, m: &mut &[u8], out: Result<T, Error>|
            #![trigger decode.ensures((m,), out), wires[i] + rest]
            0 <= i < vals.len() && (*m)@ == wires[i] + rest && decode.ensures((m,), out) ==> out
                == Ok::<T, Error>(vals[i]) && (*final(m))@ == rest,
        states.len() >= got.len() + 1,
        states[0] == concat_all(wires),
        forall|i: int|
            0 <= i < got.len() ==> exists|m: &mut &[u8]|
                (*m)@ == #[trigger] states[i] && (*final(m))@ == states[i + 1]
                    && decode.ensures((m,), Ok::<T, Error>(got[i])),
        0 <= k <= got.len(),
    ensures
        k <= vals.len(),
        states[k] == concat_all(wires.skip(k)),
        forall|j: int| 0 <= j < k ==> got[j] == vals[j],
    decreases k,
{
    if k == 0 {
        assert(wires.skip(0) =~= wires);
    } else {
        let i = k - 1;
        lemma_chain_follows(decode, states, got, vals, wires, i);
        assert(exists|m: &mut &[u8]|
            (*m)@ == states[i] && (*final(m))@ == states[i + 1] && decode.ensures(
                (m,),
                Ok::<T, Error>(got[i]),
            ));
        let m = choose|m: &mut &[u8]|
            (*m)@ == states[i] && (*final(m))@ == states[i + 1] && decode.ensures(
                (m,),
                Ok::<T, Error>(got[i]),
            );
        if i == vals.len() {
            assert(wires.skip(i) =~= Seq::<Seq<u8>>::empty());
            assert((*m)@.len() == 0);
        } else {
            let rest = concat_all(wires.skip(k));
            assert(wires.skip(i).drop_first() =~= wires.skip(k));
            assert(states[i] == wires[i] + rest);
            assert(decode.ensures((m,), Ok::<T, Error>(got[i])));
        }
    }
}

/// Pieces that are none of them empty are all gone only where there are none.
proof fn lemma_concat_empty(pieces: Seq<Seq<u8>>)
    requires
        forall|i: int| 0 <= i < pieces.len() ==> (#[trigger] pieces[i]).len() > 0,
        concat_all(pieces).len() == 0,
    ensures
        pieces.len() == 0,
{
    if pieces.len() > 0 {
        assert(pieces[0].len() > 0);
    }
}

/// A run of successful decodes over the pieces of encoded items that uses them all up has given
/// those items.
proof fn lemma_chain_reads_back<T, D: Fn(&mut &[u8]) -> Result<T, Error>>(
    decode: D,
    states: Seq<Seq<u8>>,
    got: Seq<T>,
    vals: Seq<T>,
    wires: Seq<Seq<u8>>,
)
    requires
        forall|m: &mut &[u8], out: Result<T, Error>|
            decode.ensures((m,), out) ==> (out.is_ok() ==> (*final(m))@.len() < (*m)@.len()),
        wires.len() == vals.len(),
        forall|i: int| 0 <= i < wires.len() ==> (#[trigger] wires[i]).len() > 0,
        forall|i: int, rest: Seq<u8>, m: &mut &[u8], out: Result<T, Error>|
            #![trigger decode.ensures((m,), out), wires[i] + rest]
            0 <= i < vals.len() && (*m)@ == wires[i] + rest && decode.ensures((m,), out) ==> out
                == Ok::<T, Error>(vals[i]) && (*final(m))@ == rest,
        states.len() >= got.len() + 1,
        states[0] == concat_all(wires),
        forall|i: int|
            0 <= i < got.len() ==> exists|m: &mut &[u8]|
                (*m)@ == #[trigger] states[i] && (*final(m))@ == states[i + 1]
                    && decode.ensures((m,), Ok::<T, Error>(got[i])),
        states[got.len() as int].len() == 0,
    ensures
        got == vals,
{
    lemma_chain_follows(decode, states, got, vals, wires, got.len() as int);
    assert forall|i: int| 0 <= i < wires.skip(got.len() as int).len() implies (#[trigger] wires.skip(
        got.len() as int,
    )[i]).len() > 0 by {
        assert(wires.skip(got.len() as int)[i] == wires[got.len() + i]);
    }
    lemma_concat_empty(wires.skip(got.len() as int));
    assert(got =~= vals);
}

/// A run of successful decodes over the pieces of encoded items cannot be followed by a failing
/// decode of what is left of them.
proof fn lemma_chain_no_failure<T, D: Fn(&mut &[u8]) -> Result<T, Error>>(
    decode: D,
    states: Seq<Seq<u8>>,
    got: Seq<T>,
    vals: Seq<T>,
    wires: Seq<Seq<u8>>,
)
    requires
        forall|m: &mut &[u8], out: Result<T, Error>|
            decode.ensures((m,), out) ==> (out.is_ok() ==> (*final(m))@.len() < (*m)@.len()),
        wires.len() == vals.len(),
        forall|i: int| 0 <= i < wires.len() ==> (#[trigger] wires[i]).len() > 0,
        forall|i: int, rest: Seq<u8>, m: &mut &[u8], out: Result<T, Error>|
            #![trigger decode.ensures((m,), out), wires[i] + rest]
            0 <= i < vals.len() && (*m)@ == wires[i] + rest && decode.ensures((m,), out) ==> out
                == Ok::<T, Error>(vals[i]) && (*final(m))@ == rest,
        states.len() >= got.len() + 1,
        states[0] == concat_all(wires),
        forall|i: int|
            0 <= i < got.len() ==> exists|m: &mut &[u8]|
                (*m)@ == #[trigger] states[i] && (*final(m))@ == states[i + 1]
                    && decode.ensures((m,), Ok::<T, Error>(got[i])),
        states[got.len() as int].len() > 0,
    ensures
        forall|m: &mut &[u8], out: Result<T, Error>|
            (*m)@ == states[got.len() as int] && #[trigger] decode.ensures((m,), out) ==> out is Ok,
{
    let k = got.len() as int;
    lemma_chain_follows(decode, states, got, vals, wires, k);
    assert forall|m: &mut &[u8], out: Result<T, Error>|
        (*m)@ == states[k] && #[trigger] decode.ensures((m,), out) implies out is Ok by {
        if k == vals.len() {
            assert(wires.skip(k) =~= Seq::<Seq<u8>>::empty());
        } else {
            let rest = concat_all(wires.skip(k + 1));
            assert(wires.skip(k).drop_first() =~= wires.skip(k + 1));
            assert(states[k] == wires[k] + rest);
            assert(decode.ensures((m,), out));
        }
    }
}

/// Decode items with `decode` until the reader is exhausted.
fn decode_items<T, D: Fn(&mut &[u8]) -> Result<T, Error>>(r: &mut &[u8], decode: &D) -> (res:
    Result<Vec<T>, Error>)
    requires
        forall|m: &mut &[u8]| decode.requires((m,)),
        forall|m: &mut &[u8], out: Result<T, Error>|
            decode.ensures((m,), out) ==> (*final(m))@.len() <= (*m)@.len() && (*final(m))@ == (*m)@.skip(
                (*m)@.len() - (*final(m))@.len(),
            ) && (out.is_ok() ==> (*final(m))@.len() < (*m)@.len()),
    ensures
        final(r)@.len() <= old(r)@.len(),
        final(r)@ == old(r)@.skip(old(r)@.len() - final(r)@.len()),
        res matches Ok(v) ==> final(r)@.len() == 0 && exists|states: Seq<Seq<u8>>|
            {
                &&& states.len() == v@.len() + 1
                &&& states[0] == old(r)@
                &&& states.last() == Seq::<u8>::empty()
                &&& forall|i: int|
                    0 <= i < v@.len() ==> exists|m: &mut &[u8]|
                        (*m)@ == #[trigger] states[i] && (*final(m))@ == states[i + 1]
                            && decode.ensures((m,), Ok::<T, Error>(v@[i]))
            },
        old(r)@.len() == 0 ==> (res matches Ok(v) && v@.len() == 0),
        forall|vals: Seq<T>, wires: Seq<Seq<u8>>|
            #![trigger concat_all(wires), vals.len()]
            {
                &&& wires.len() == vals.len()
                &&& forall|i: int| 0 <= i < wires.len() ==> (#[trigger] wires[i]).len() > 0
                &&& old(r)@ == concat_all(wires)
                &&& forall|i: int, rest: Seq<u8>, m: &mut &[u8], out: Result<T, Error>|
                        #![trigger decode.ensures((m,), out), wires[i] + rest]
                        0 <= i < vals.len() && (*m)@ == wires[i] + rest && decode.ensures((m,), out)
                            ==> out == Ok::<T, Error>(vals[i]) && (*final(m))@ == rest
            } ==> (res matches Ok(v) && v@ == vals),
        res matches Err(e) ==> exists|states: Seq<Seq<u8>>, vals: Seq<T>|
            {
                &&& states.len() == vals.len() + 1
                &&& states[0] == old(r)@
                &&& states.last().len() > 0
                &&& forall|i: int|
                    0 <= i < vals.len() ==> exists|m: &mut &[u8]|
                        (*m)@ == #[trigger] states[i] && (*final(m))@ == states[i + 1]
                            && decode.ensures((m,), Ok::<T, Error>(vals[i]))
                &&& exists|m: &mut &[u8]|
                    (*m)@ == states.last() && (*final(m))@ == final(r)@ && decode.ensures(
                        (m,),
                        Err::<T, Error>(e),
                    )
            },
{
    let mut vec: Vec<T> = Vec::new();
    let ghost mut states: Seq<Seq<u8>> = seq![r@];
    while r.len() > 0
        invariant
            forall|m: &mut &[u8]| decode.requires((m,)),
            forall|m: &mut &[u8], out: Result<T, Error>|
                decode.ensures((m,), out) ==> (*final(m))@.len() <= (*m)@.len() && (*final(m))@ == (*m)@.skip(
                    (*m)@.len() - (*final(m))@.len(),
                ) && (out.is_ok() ==> (*final(m))@.len() < (*m)@.len()),
            r@.len() <= old(r)@.len(),
            r@ == old(r)@.skip(old(r)@.len() - r@.len()),
            states.len() == vec@.len() + 1,
            states[0] == old(r)@,
            states.last() == r@,
            vec@.len() <= old(r)@.len() - r@.len(),
            forall|i: int|
                0 <= i < vec@.len() ==> exists|m: &mut &[u8]|
                    (*m)@ == #[trigger] states[i] && (*final(m))@ == states[i + 1]
                        && decode.ensures((m,), Ok::<T, Error>(vec@[i])),
        decreases r@.len(),
    {
        let ghost before = r@;
        let out = decode(r);
        proof {
            assert(r@ =~= old(r)@.skip(old(r)@.len() - r@.len())) by {
                assert(r@ == before.skip(before.len() - r@.len()));
            }
        }
        match out {
            Ok(v) => {
                let ghost prev_states = states;
                let ghost prev_vec = vec@;
                vec.push(v);
                proof {
                    states = states.push(r@);
                    assert forall|i: int|
                        0 <= i < vec@.len() implies exists|m: &mut &[u8]|
                            (*m)@ == #[trigger] states[i] && (*final(m))@ == states[i + 1]
                                && decode.ensures((m,), Ok::<T, Error>(vec@[i])) by {
                        if i < prev_vec.len() {
                            assert(states[i] == prev_states[i] && states[i + 1] == prev_states[i
                                + 1] && vec@[i] == prev_vec[i]);
                        }
                    }
                }
            },
            Err(e) => {
                proof {
                    assert(exists|m: &mut &[u8]|
                        (*m)@ == states.last() && (*final(m))@ == r@ && decode.ensures(
                            (m,),
                            Err::<T, Error>(e),
                        ));
                    assert forall|vals: Seq<T>, wires: Seq<Seq<u8>>|
                        #![trigger concat_all(wires), vals.len()]
                        {
                            &&& wires.len() == vals.len()
                            &&& forall|i: int| 0 <= i < wires.len() ==> (#[trigger] wires[i]).len() > 0
                            &&& old(r)@ == concat_all(wires)
                            &&& forall|i: int, rest: Seq<u8>, m: &mut &[u8], out: Result<T, Error>|
                        #![trigger decode.ensures((m,), out), wires[i] + rest]
                        0 <= i < vals.len() && (*m)@ == wires[i] + rest && decode.ensures((m,), out)
                            ==> out == Ok::<T, Error>(vals[i]) && (*final(m))@ == rest
                        } implies false by {
                        lemma_chain_no_failure(*decode, states, vec@, vals, wires);
                    }
                }
                return Err(e);
            },
        }
    }
    proof {
        assert(r@ =~= Seq::<u8>::empty());
        assert forall|vals: Seq<T>, wires: Seq<Seq<u8>>|
            #![trigger concat_all(wires), vals.len()]
            {
                &&& wires.len() == vals.len()
                &&& forall|i: int| 0 <= i < wires.len() ==> (#[trigger] wires[i]).len() > 0
                &&& old(r)@ == concat_all(wires)
                &&& forall|i: int, rest: Seq<u8>, m: &mut &[u8], out: Result<T, Error>|
                        #![trigger decode.ensures((m,), out), wires[i] + rest]
                        0 <= i < vals.len() && (*m)@ == wires[i] + rest && decode.ensures((m,), out)
                            ==> out == Ok::<T, Error>(vals[i]) && (*final(m))@ == rest
            } implies vec@ == vals by {
            lemma_chain_reads_back(*decode, states, vec@, vals, wires);
        }
    }
    Ok(vec)
}

/// Decode the items of a length-prefixed container: on success, the items and the reader after
/// the container.
fn decode_container<T, D: Fn(&mut &[u8]) -> Result<T, Error>>(
    r: &mut &[u8],
    len: usize,
    decode: &D,
) -> (res: Result<Vec<T>, Error>)
    requires
        forall|m: &mut &[u8]| decode.requires((m,)),
        forall|m: &mut &[u8], out: Result<T, Error>|
            decode.ensures((m,), out) ==> (*final(m))@.len() <= (*m)@.len() && (*final(m))@ == (*m)@.skip(
                (*m)@.len() - (*final(m))@.len(),
            ) && (out.is_ok() ==> (*final(m))@.len() < (*m)@.len()),
        len <= old(r)@.len(),
    ensures
        final(r)@.len() <= old(r)@.len(),
        final(r)@ == old(r)@.skip(old(r)@.len() - final(r)@.len()),
        res matches Ok(v) ==> final(r)@ == old(r)@.skip(len as int) && exists|states: Seq<Seq<u8>>|
            {
                &&& states.len() == v@.len() + 1
                &&& states[0] == old(r)@.take(len as int)
                &&& states.last() == Seq::<u8>::empty()
                &&& forall|i: int|
                    0 <= i < v@.len() ==> exists|m: &mut &[u8]|
                        (*m)@ == #[trigger] states[i] && (*final(m))@ == states[i + 1]
                            && decode.ensures((m,), Ok::<T, Error>(v@[i]))
            },
        len == 0 ==> (res matches Ok(v) && v@.len() == 0) && final(r)@ == old(r)@,
        forall|vals: Seq<T>, wires: Seq<Seq<u8>>|
            #![trigger concat_all(wires), vals.len()]
            {
                &&& wires.len() == vals.len()
                &&& forall|i: int| 0 <= i < wires.len() ==> (#[trigger] wires[i]).len() > 0
                &&& old(r)@.take(len as int) == concat_all(wires)
                &&& forall|i: int, rest: Seq<u8>, m: &mut &[u8], out: Result<T, Error>|
                        #![trigger decode.ensures((m,), out), wires[i] + rest]
                        0 <= i < vals.len() && (*m)@ == wires[i] + rest && decode.ensures((m,), out)
                            ==> out == Ok::<T, Error>(vals[i]) && (*final(m))@ == rest
            } ==> (res matches Ok(v) && v@ == vals),
        res matches Err(e) ==> exists|states: Seq<Seq<u8>>, vals: Seq<T>|
            {
                &&& states.len() == vals.len() + 1
                &&& states[0] == old(r)@.take(len as int)
                &&& states.last().len() > 0
                &&& forall|i: int|
                    0 <= i < vals.len() ==> exists|m: &mut &[u8]|
                        (*m)@ == #[trigger] states[i] && (*final(m))@ == states[i + 1]
                            && decode.ensures((m,), Ok::<T, Error>(vals[i]))
                &&& exists|m: &mut &[u8]|
                    (*m)@ == states.last() && final(r)@ == old(r)@.skip(
                        len - (*final(m))@.len(),
                    ) && decode.ensures((m,), Err::<T, Error>(e))
            },
{
    let mut sub = vstd::slice::slice_subrange(*r, 0, len);
    proof {
        assert(sub@ =~= old(r)@.take(len as int));
    }
    let res = decode_items(&mut sub, decode);
    let consumed = len - sub.len();
    proof {
        assert(old(r)@.take(len as int).skip(consumed as int) == sub@);
    }
    advance(r, consumed);
    proof {
        assert(r@ =~= old(r)@.skip(old(r)@.len() - r@.len()));
    }
    res
}

/// Decode a Mabo `vec<T>` vector value: a byte length as _Varint_, then items decoded with
/// `decode` until that many bytes are used up.
///
/// # Errors
///
/// Will return `Err` if the buffer does not have enough remaining data to read the value, or the
/// `T` type fails to decode.
pub fn decode_vec<T, D: Fn(&mut &[u8]) -> Result<T, Error>>(r: &mut &[u8], decode: D) -> (res:
    Result<Vec<T>, Error>)
    requires
        forall|m: &mut &[u8]| decode.requires((m,)),
        forall|m: &mut &[u8], out: Result<T, Error>|
            decode.ensures((m,), out) ==> (*final(m))@.len() <= (*m)@.len() && (*final(m))@ == (*m)@.skip(
                (*m)@.len() - (*final(m))@.len(),
            ) && (out.is_ok() ==> (*final(m))@.len() < (*m)@.len()),
    ensures
        final(r)@.len() <= old(r)@.len(),
        final(r)@ == old(r)@.skip(old(r)@.len() - final(r)@.len()),
        match spec_read_u64(old(r)@) {
            None => (res matches Err(Error::DecodeInt(_))) && final(r)@ == old(r)@,
            Some((len, n)) => if n + len <= old(r)@.len() {
                (res matches Ok(v) ==> final(r)@ == old(r)@.skip((n + len) as int) && exists|
                    states: Seq<Seq<u8>>,
                |
                    {
                        &&& states.len() == v@.len() + 1
                        &&& states[0] == old(r)@.subrange(n as int, (n + len) as int)
                        &&& states.last() == Seq::<u8>::empty()
                        &&& forall|i: int|
                            0 <= i < v@.len() ==> exists|m: &mut &[u8]|
                                (*m)@ == #[trigger] states[i] && (*final(m))@ == states[i + 1]
                                    && decode.ensures((m,), Ok::<T, Error>(v@[i]))
                    }) && (len == 0 ==> (res matches Ok(v) && v@.len() == 0)) && (
                forall|vals: Seq<T>, wires: Seq<Seq<u8>>|
                    #![trigger concat_all(wires), vals.len()]
                    {
                        &&& wires.len() == vals.len()
                        &&& forall|i: int| 0 <= i < wires.len() ==> (#[trigger] wires[i]).len() > 0
                        &&& old(r)@.subrange(n as int, (n + len) as int) == concat_all(wires)
                        &&& forall|i: int, rest: Seq<u8>, m: &mut &[u8], out: Result<T, Error>|
                        #![trigger decode.ensures((m,), out), wires[i] + rest]
                        0 <= i < vals.len() && (*m)@ == wires[i] + rest && decode.ensures((m,), out)
                            ==> out == Ok::<T, Error>(vals[i]) && (*final(m))@ == rest
                    } ==> (res matches Ok(v) && v@ == vals)) && (res matches Err(e) ==> exists|states: Seq<Seq<u8>>, vals: Seq<T>|
                    {
                        &&& states.len() == vals.len() + 1
                        &&& states[0] == old(r)@.subrange(n as int, (n + len) as int)
                        &&& states.last().len() > 0
                        &&& forall|i: int|
                            0 <= i < vals.len() ==> exists|m: &mut &[u8]|
                                (*m)@ == #[trigger] states[i] && (*final(m))@ == states[i + 1]
                                    && decode.ensures((m,), Ok::<T, Error>(vals[i]))
                        &&& exists|m: &mut &[u8]| (*m)@ == states.last() && decode.ensures((m,), Err::<T, Error>(e))
                    })
            } else {
                (res matches Err(Error::InsufficientData)) && final(r)@ == old(r)@.skip(n as int)
            },
        },
{
    proof {
        varint::lemma_decode_len(r@, 10);
    }
    let len = decode_u64(r)?;
    if (r.len() as u64) < len {
        return Err(Error::InsufficientData);
    }
    let ghost mid = r@;
    let res = decode_container(r, len as usize, &decode);
    proof {
        let n = spec_read_u64(old(r)@).unwrap().1;
        assert(mid.take(len as int) =~= old(r)@.subrange(n as int, (n + len) as int));
        assert(mid.skip(len as int) =~= old(r)@.skip(n + len));
        assert(r@ =~= old(r)@.skip(old(r)@.len() - r@.len()));
    }
    res
}

/// Decode a Mabo `non_zero<vec<T>>`: like [`decode_vec`], but an empty vector is an error.
///
/// # Errors
///
/// Will return `Err` if the buffer does not have enough remaining data to read the value, the
/// collection is empty, or the `T` type fails to decode.
pub fn decode_non_zero_vec<T, D: Fn(&mut &[u8]) -> Result<T, Error>>(r: &mut &[u8], decode: D) -> (res:
    Result<NonZero<Vec<T>>, Error>)
    requires
        forall|m: &mut &[u8]| decode.requires((m,)),
        forall|m: &mut &[u8], out: Result<T, Error>|
            decode.ensures((m,), out) ==> (*final(m))@.len() <= (*m)@.len() && (*final(m))@ == (*m)@.skip(
                (*m)@.len() - (*final(m))@.len(),
            ) && (out.is_ok() ==> (*final(m))@.len() < (*m)@.len()),
    ensures
        final(r)@.len() <= old(r)@.len(),
        final(r)@ == old(r)@.skip(old(r)@.len() - final(r)@.len()),
        match spec_read_u64(old(r)@) {
            None => (res matches Err(Error::DecodeInt(_))) && final(r)@ == old(r)@,
            Some((len, n)) => if len == 0 {
                (res matches Err(Error::Zero)) && final(r)@ == old(r)@.skip(n as int)
            } else if n + len <= old(r)@.len() {
                (res matches Ok(v) ==> final(r)@ == old(r)@.skip((n + len) as int) && v.inner()@.len() > 0
                    && exists|states: Seq<Seq<u8>>|
                    {
                        &&& states.len() == v.inner()@.len() + 1
                        &&& states[0] == old(r)@.subrange(n as int, (n + len) as int)
                        &&& states.last() == Seq::<u8>::empty()
                        &&& forall|i: int|
                            0 <= i < v.inner()@.len() ==> exists|m: &mut &[u8]|
                                (*m)@ == #[trigger] states[i] && (*final(m))@ == states[i + 1]
                                    && decode.ensures((m,), Ok::<T, Error>(v.inner()@[i]))
                    }) && (                forall|vals: Seq<T>, wires: Seq<Seq<u8>>|
                    #![trigger concat_all(wires), vals.len()]
                    {
                        &&& wires.len() == vals.len()
                        &&& forall|i: int| 0 <= i < wires.len() ==> (#[trigger] wires[i]).len() > 0
                        &&& old(r)@.subrange(n as int, (n + len) as int) == concat_all(wires)
                        &&& forall|i: int, rest: Seq<u8>, m: &mut &[u8], out: Result<T, Error>|
                        #![trigger decode.ensures((m,), out), wires[i] + rest]
                        0 <= i < vals.len() && (*m)@ == wires[i] + rest && decode.ensures((m,), out)
                            ==> out == Ok::<T, Error>(vals[i]) && (*final(m))@ == rest
                    } ==> (res matches Ok(v) && v.inner()@ == vals)) && (res matches Err(e) ==> exists|states: Seq<Seq<u8>>, vals: Seq<T>|
                    {
                        &&& states.len() == vals.len() + 1
                        &&& states[0] == old(r)@.subrange(n as int, (n + len) as int)
                        &&& states.last().len() > 0
                        &&& forall|i: int|
                            0 <= i < vals.len() ==> exists|m: &mut &[u8]|
                                (*m)@ == #[trigger] states[i] && (*final(m))@ == states[i + 1]
                                    && decode.ensures((m,), Ok::<T, Error>(vals[i]))
                        &&& exists|m: &mut &[u8]| (*m)@ == states.last() && decode.ensures((m,), Err::<T, Error>(e))
                    })
            } else {
                (res matches Err(Error::InsufficientData)) && final(r)@ == old(r)@.skip(n as int)
            },
        },
{
    proof {
        varint::lemma_decode_len(r@, 10);
    }
    let len = decode_u64(r)?;
    if len == 0 {
        return Err(Error::Zero);
    }
    if (r.len() as u64) < len {
        return Err(Error::InsufficientData);
    }
    let ghost mid = r@;
    let res = decode_container(r, len as usize, &decode);
    proof {
        let n = spec_read_u64(old(r)@).unwrap().1;
        assert(mid.take(len as int) =~= old(r)@.subrange(n as int, (n + len) as int));
        assert(mid.skip(len as int) =~= old(r)@.skip(n + len));
        assert(r@ =~= old(r)@.skip(old(r)@.len() - r@.len()));
    }
    match res {
        Ok(vec) => {
            proof {
                let states = choose|states: Seq<Seq<u8>>|
                    {
                        &&& states.len() == vec@.len() + 1
                        &&& states[0] == mid.take(len as int)
                        &&& states.last() == Seq::<u8>::empty()
                        &&& forall|i: int|
                            0 <= i < vec@.len() ==> exists|m: &mut &[u8]|
                                (*m)@ == #[trigger] states[i] && (*final(m))@ == states[i + 1]
                                    && decode.ensures((m,), Ok::<T, Error>(vec@[i]))
                    };
                if vec@.len() == 0 {
                    assert(states[0] == states.last());
                    assert(mid.take(len as int).len() == len);
                }
            }
            match NonZero::<Vec<T>>::new(vec) {
                Some(nz) => Ok(nz),
                None => Err(Error::Zero),
            }
        },
        Err(e) => Err(e),
    }
}

/// Decode items with `decode` until the reader is exhausted or `limit` items have been read.
fn decode_items_upto<T, D: Fn(&mut &[u8]) -> Result<T, Error>>(r: &mut &[u8], limit: usize, decode: &D)
    -> (res: Result<Vec<T>, Error>)
    requires
        forall|m: &mut &[u8]| decode.requires((m,)),
        forall|m: &mut &[u8], out: Result<T, Error>|
            decode.ensures((m,), out) ==> (*final(m))@.len() <= (*m)@.len() && (*final(m))@ == (*m)@.skip(
                (*m)@.len() - (*final(m))@.len(),
            ) && (out.is_ok() ==> (*final(m))@.len() < (*m)@.len()),
    ensures
        final(r)@.len() <= old(r)@.len(),
        final(r)@ == old(r)@.skip(old(r)@.len() - final(r)@.len()),
        res matches Ok(v) ==> v@.len() <= limit && (final(r)@.len() == 0 || v@.len() == limit)
            && exists|states: Seq<Seq<u8>>|
            {
                &&& states.len() == v@.len() + 1
                &&& states[0] == old(r)@
                &&& states.last() == final(r)@
                &&& forall|i: int|
                    0 <= i < v@.len() ==> exists|m: &mut &[u8]|
                        (*m)@ == #[trigger] states[i] && (*final(m))@ == states[i + 1]
                            && decode.ensures((m,), Ok::<T, Error>(v@[i]))
            },
        forall|vals: Seq<T>, wires: Seq<Seq<u8>>, extra: Seq<u8>|
            #![trigger concat_all(wires) + extra, vals.len()]
            {
                &&& wires.len() == vals.len()
                &&& vals.len() == limit
                &&& forall|i: int| 0 <= i < wires.len() ==> (#[trigger] wires[i]).len() > 0
                &&& old(r)@ == concat_all(wires) + extra
                &&& forall|i: int, rest: Seq<u8>, m: &mut &[u8], out: Result<T, Error>|
                        #![trigger decode.ensures((m,), out), wires[i] + rest]
                        0 <= i < vals.len() && (*m)@ == wires[i] + rest && decode.ensures((m,), out)
                            ==> out == Ok::<T, Error>(vals[i]) && (*final(m))@ == rest
            } ==> (res matches Ok(v) && v@ == vals),
        res matches Err(e) ==> exists|states: Seq<Seq<u8>>, vals: Seq<T>|
            {
                &&& states.len() == vals.len() + 1
                &&& vals.len() < limit
                &&& states[0] == old(r)@
                &&& states.last().len() > 0
                &&& forall|i: int|
                    0 <= i < vals.len() ==> exists|m: &mut &[u8]|
                        (*m)@ == #[trigger] states[i] && (*final(m))@ == states[i + 1]
                            && decode.ensures((m,), Ok::<T, Error>(vals[i]))
                &&& exists|m: &mut &[u8]|
                    (*m)@ == states.last() && (*final(m))@ == final(r)@ && decode.ensures(
                        (m,),
                        Err::<T, Error>(e),
                    )
            },
{
    let mut vec: Vec<T> = Vec::new();
    let ghost mut states: Seq<Seq<u8>> = seq![r@];
    while r.len() > 0 && vec.len() < limit
        invariant
            forall|m: &mut &[u8]| decode.requires((m,)),
            forall|m: &mut &[u8], out: Result<T, Error>|
                decode.ensures((m,), out) ==> (*final(m))@.len() <= (*m)@.len() && (*final(m))@ == (*m)@.skip(
                    (*m)@.len() - (*final(m))@.len(),
                ) && (out.is_ok() ==> (*final(m))@.len() < (*m)@.len()),
            r@.len() <= old(r)@.len(),
            r@ == old(r)@.skip(old(r)@.len() - r@.len()),
            vec@.len() <= limit,
            states.len() == vec@.len() + 1,
            states[0] == old(r)@,
            states.last() == r@,
            forall|i: int|
                0 <= i < vec@.len() ==> exists|m: &mut &[u8]|
                    (*m)@ == #[trigger] states[i] && (*final(m))@ == states[i + 1]
                        && decode.ensures((m,), Ok::<T, Error>(vec@[i])),
        decreases r@.len(),
    {
        let ghost before = r@;
        let out = decode(r);
        proof {
            assert(r@ =~= old(r)@.skip(old(r)@.len() - r@.len())) by {
                assert(r@ == before.skip(before.len() - r@.len()));
            }
        }
        match out {
            Ok(v) => {
                let ghost prev_states = states;
                let ghost prev_vec = vec@;
                vec.push(v);
                proof {
                    states = states.push(r@);
                    assert forall|i: int|
                        0 <= i < vec@.len() implies exists|m: &mut &[u8]|
                            (*m)@ == #[trigger] states[i] && (*final(m))@ == states[i + 1]
                                && decode.ensures((m,), Ok::<T, Error>(vec@[i])) by {
                        if i < prev_vec.len() {
                            assert(states[i] == prev_states[i] && states[i + 1] == prev_states[i
                                + 1] && vec@[i] == prev_vec[i]);
                        }
                    }
                }
            },
            Err(e) => {
                proof {
                    assert(exists|m: &mut &[u8]|
                        (*m)@ == states.last() && (*final(m))@ == r@ && decode.ensures(
                            (m,),
                            Err::<T, Error>(e),
                        ));
                    assert forall|vals: Seq<T>, wires: Seq<Seq<u8>>, extra: Seq<u8>|
                        #![trigger concat_all(wires) + extra, vals.len()]
                        {
                            &&& wires.len() == vals.len()
                            &&& vals.len() == limit
                            &&& forall|i: int| 0 <= i < wires.len() ==> (#[trigger] wires[i]).len() > 0
                            &&& old(r)@ == concat_all(wires) + extra
                            &&& forall|i: int, rest: Seq<u8>, m: &mut &[u8], out: Result<T, Error>|
                        #![trigger decode.ensures((m,), out), wires[i] + rest]
                        0 <= i < vals.len() && (*m)@ == wires[i] + rest && decode.ensures((m,), out)
                            ==> out == Ok::<T, Error>(vals[i]) && (*final(m))@ == rest
                        } implies false by {
                        lemma_prefix_follows(*decode, states, vec@, vals, wires, extra, vec@.len() as int);
                        let k = vec@.len() as int;
                        let rest = concat_all(wires.skip(k + 1)) + extra;
                        assert(wires.skip(k).drop_first() =~= wires.skip(k + 1));
                        assert(states[k] =~= wires[k] + rest);
                        let m = choose|m: &mut &[u8]|
                            (*m)@ == states.last() && (*final(m))@ == r@ && decode.ensures(
                                (m,),
                                Err::<T, Error>(e),
                            );
                        assert(decode.ensures((m,), Err::<T, Error>(e)));
                    }
                }
                return Err(e);
            },
        }
    }
    proof {
        assert forall|vals: Seq<T>, wires: Seq<Seq<u8>>, extra: Seq<u8>|
            #![trigger concat_all(wires) + extra, vals.len()]
            {
                &&& wires.len() == vals.len()
                &&& vals.len() == limit
                &&& forall|i: int| 0 <= i < wires.len() ==> (#[trigger] wires[i]).len() > 0
                &&& old(r)@ == concat_all(wires) + extra
                &&& forall|i: int, rest: Seq<u8>, m: &mut &[u8], out: Result<T, Error>|
                        #![trigger decode.ensures((m,), out), wires[i] + rest]
                        0 <= i < vals.len() && (*m)@ == wires[i] + rest && decode.ensures((m,), out)
                            ==> out == Ok::<T, Error>(vals[i]) && (*final(m))@ == rest
            } implies vec@ == vals by {
            let k = vec@.len() as int;
            lemma_prefix_follows(*decode, states, vec@, vals, wires, extra, k);
            if k < limit {
                assert forall|i: int| 0 <= i < wires.skip(k).len() implies (#[trigger] wires.skip(
                    k,
                )[i]).len() > 0 by {
                    assert(wires.skip(k)[i] == wires[k + i]);
                }
                lemma_concat_empty(wires.skip(k));
            }
            assert(vec@ =~= vals);
        }
    }
    Ok(vec)
}

/// `<[T; N] as TryFrom<Vec<T>>>::try_from` from std: the vector's items as an array where there
/// are exactly `N` of them; otherwise the vector comes back unchanged.
#[verifier::external_body]
fn array_try_from_vec<T, const N: usize>(items: Vec<T>) -> (res: Result<[T; N], Vec<T>>)
    ensures
        res is Ok <==> items@.len() == N,
        res matches Ok(a) ==> a@ == items@,
        res matches Err(v) ==> v@ == items@,
{
    <[T; N]>::try_from(items)
}

/// A run of at most as many successful decodes as there are items, started on the pieces of
/// encoded items followed by any other bytes, where decoding an item's bytes (whatever follows
/// them) gives that item and leaves what follows, keeps to the pieces.
proof fn lemma_prefix_follows<T, D: Fn(&mut &[u8]) -> Result<T, Error>>(
    decode: D,
    states: Seq<Seq<u8>>,
    got: Seq<T>,
    vals: Seq<T>,
    wires: Seq<Seq<u8>>,
    extra: Seq<u8>,
    k: int,
)
    requires
        wires.len() == vals.len(),
        got.len() <= vals.len(),
        forall|i: int, rest: Seq<u8>, m: &mut &[u8], out: Result<T, Error>|
            #![trigger decode.ensures((m,), out), wires[i] + rest]
            0 <= i < vals.len() && (*m)@ == wires[i] + rest && decode.ensures((m,), out) ==> out
                == Ok::<T, Error>(vals[i]) && (*final(m))@ == rest,
        states.len() >= got.len() + 1,
        states[0] == concat_all(wires) + extra,
        forall|i: int|
            0 <= i < got.len() ==> exists|m: &mut &[u8]|
                (*m)@ == #[trigger] states[i] && (*final(m))@ == states[i + 1]
                    && decode.ensures((m,), Ok::<T, Error>(got[i])),
        0 <= k <= got.len(),
    ensures
        states[k] == concat_all(wires.skip(k)) + extra,
        forall|j: int| 0 <= j < k ==> got[j] == vals[j],
    decreases k,
{
    if k == 0 {
        assert(wires.skip(0) =~= wires);
    } else {
        let i = k - 1;
        lemma_prefix_follows(decode, states, got, vals, wires, extra, i);
        assert(exists|m: &mut &[u8]|
            (*m)@ == states[i] && (*final(m))@ == states[i + 1] && decode.ensures(
                (m,),
                Ok::<T, Error>(got[i]),
            ));
        let m = choose|m: &mut &[u8]|
            (*m)@ == states[i] && (*final(m))@ == states[i + 1] && decode.ensures(
                (m,),
                Ok::<T, Error>(got[i]),
            );
        let rest = concat_all(wires.skip(k)) + extra;
        assert(wires.skip(i).drop_first() =~= wires.skip(k));
        assert(states[i] =~= wires[i] + rest);
        assert(decode.ensures((m,), Ok::<T, Error>(got[i])));
    }
}

/// Decode a Mabo `array<T, N>` array value: a byte length as _Varint_, then up to `N` items
/// decoded with `decode`; bytes left over after `N` items (written by a larger array definition)
/// are skipped.
///
/// # Errors
///
/// Will return `Err` if the buffer does not have enough remaining data to read the value (the
/// items run out before `N` of them are read), or the `T` type fails to decode.
pub fn decode_array<const N: usize, T, D: Fn(&mut &[u8]) -> Result<T, Error>>(r: &mut &[u8], decode: D)
    -> (res: Result<[T; N], Error>)
    requires
        forall|m: &mut &[u8]| decode.requires((m,)),
        forall|m: &mut &[u8], out: Result<T, Error>|
            decode.ensures((m,), out) ==> (*final(m))@.len() <= (*m)@.len() && (*final(m))@ == (*m)@.skip(
                (*m)@.len() - (*final(m))@.len(),
            ) && (out.is_ok() ==> (*final(m))@.len() < (*m)@.len()),
    ensures
        final(r)@.len() <= old(r)@.len(),
        final(r)@ == old(r)@.skip(old(r)@.len() - final(r)@.len()),
        match spec_read_u64(old(r)@) {
            None => (res matches Err(Error::DecodeInt(_))) && final(r)@ == old(r)@,
            Some((len, n)) => if n + len <= old(r)@.len() {
                (res matches Ok(a) ==> final(r)@ == old(r)@.skip((n + len) as int) && exists|
                    states: Seq<Seq<u8>>,
                |
                    {
                        &&& states.len() == N + 1
                        &&& states[0] == old(r)@.subrange(n as int, (n + len) as int)
                        &&& forall|i: int|
                            0 <= i < N ==> exists|m: &mut &[u8]|
                                (*m)@ == #[trigger] states[i] && (*final(m))@ == states[i + 1]
                                    && decode.ensures((m,), Ok::<T, Error>(a@[i]))
                    }) && (forall|vals: Seq<T>, wires: Seq<Seq<u8>>, extra: Seq<u8>|
                    #![trigger concat_all(wires) + extra, vals.len()]
                    {
                        &&& wires.len() == vals.len()
                        &&& vals.len() == N
                        &&& forall|i: int| 0 <= i < wires.len() ==> (#[trigger] wires[i]).len() > 0
                        &&& old(r)@.subrange(n as int, (n + len) as int) == concat_all(wires) + extra
                        &&& forall|i: int, rest: Seq<u8>, m: &mut &[u8], out: Result<T, Error>|
                        #![trigger decode.ensures((m,), out), wires[i] + rest]
                        0 <= i < vals.len() && (*m)@ == wires[i] + rest && decode.ensures((m,), out)
                            ==> out == Ok::<T, Error>(vals[i]) && (*final(m))@ == rest
                    } ==> (res matches Ok(a) && a@ == vals)) && (res matches Err(e) ==> exists|states: Seq<Seq<u8>>, vals: Seq<T>|
                    {
                        &&& states.len() == vals.len() + 1
                        &&& vals.len() < N
                        &&& states[0] == old(r)@.subrange(n as int, (n + len) as int)
                        &&& forall|i: int|
                            0 <= i < vals.len() ==> exists|m: &mut &[u8]|
                                (*m)@ == #[trigger] states[i] && (*final(m))@ == states[i + 1]
                                    && decode.ensures((m,), Ok::<T, Error>(vals[i]))
                        &&& {
                            ||| (e matches Error::InsufficientData) && states.last().len() == 0
                            ||| states.last().len() > 0 && exists|m: &mut &[u8]|
                                (*m)@ == states.last() && decode.ensures((m,), Err::<T, Error>(e))
                        }
                    })
            } else {
                (res matches Err(Error::InsufficientData)) && final(r)@ == old(r)@.skip(n as int)
            },
        },
{
    proof {
        varint::lemma_decode_len(r@, 10);
    }
    let len = decode_u64(r)?;
    if (r.len() as u64) < len {
        return Err(Error::InsufficientData);
    }
    let ghost mid = r@;
    let len = len as usize;
    let mut sub = vstd::slice::slice_subrange(*r, 0, len);
    proof {
        let n = spec_read_u64(old(r)@).unwrap().1;
        assert(sub@ =~= mid.take(len as int));
        assert(mid.take(len as int) =~= old(r)@.subrange(n as int, (n + len) as int));
        assert(mid.skip(len as int) =~= old(r)@.skip(n + len));
    }
    let items = decode_items_upto(&mut sub, N, &decode);
    match items {
        Ok(vec) => {
            advance(r, len);
            proof {
                assert(r@ =~= old(r)@.skip(old(r)@.len() - r@.len()));
            }
            match array_try_from_vec(vec) {
                Ok(a) => Ok(a),
                Err(_) => Err(Error::InsufficientData),
            }
        },
        Err(e) => {
            let consumed = len - sub.len();
            proof {
                assert(mid.take(len as int).skip(consumed as int) == sub@);
            }
            advance(r, consumed);
            proof {
                assert(r@ =~= old(r)@.skip(old(r)@.len() - r@.len()));
            }
            Err(e)
        },
    }
}

/// The elements of a vector, gathered in a set.
fn set_of<T: std::hash::Hash + Eq>(items: Vec<T>) -> (set: std::collections::HashSet<T>)
    requires
        vstd::std_specs::hash::obeys_key_model::<T>(),
    ensures
        set@ == items@.to_set(),
{
    let ghost all = items@;
    let mut items = items;
    let mut set = std::collections::HashSet::new();
    proof {
        assert(all.subrange(all.len() as int, all.len() as int).to_set() =~= set@);
    }
    while items.len() > 0
        invariant
            vstd::std_specs::hash::obeys_key_model::<T>(),
            items@ == all.take(items.len() as int),
            items.len() <= all.len(),
            set@ == all.subrange(items.len() as int, all.len() as int).to_set(),
        decreases items.len(),
    {
        let ghost k = items.len() - 1;
        let x = items.pop().unwrap();
        proof {
            let rest = all.subrange(k + 1, all.len() as int);
            let whole = all.subrange(k, all.len() as int);
            assert(whole =~= seq![x] + rest);
            assert forall|a: T| whole.to_set().contains(a) <==> rest.to_set().insert(x).contains(a) by {
                if whole.contains(a) {
                    let i = choose|i: int| 0 <= i < whole.len() && whole[i] == a;
                    if i > 0 {
                        assert(rest[i - 1] == a);
                    }
                }
                if rest.contains(a) {
                    let i = choose|i: int| 0 <= i < rest.len() && rest[i] == a;
                    assert(whole[i + 1] == a);
                }
                if a == x {
                    assert(whole[0] == x);
                }
            }
            assert(whole.to_set() =~= rest.to_set().insert(x));
            assert(items@ =~= all.take(k));
        }
        set.insert(x);
    }
    proof {
        assert(all.subrange(0, all.len() as int) =~= all);
    }
    set
}

/// Decode a Mabo `hash_set<T>` hash set value: a byte length as _Varint_, then items decoded with
/// `decode` until that many bytes are used up, gathered in a set.
///
/// # Errors
///
/// Will return `Err` if the buffer does not have enough remaining data to read the value, or the
/// `T` type fails to decode.
pub fn decode_hash_set<T: std::hash::Hash + Eq, D: Fn(&mut &[u8]) -> Result<T, Error>>(
    r: &mut &[u8],
    decode: D,
) -> (res: Result<std::collections::HashSet<T>, Error>)
    requires
        vstd::std_specs::hash::obeys_key_model::<T>(),
        forall|m: &mut &[u8]| decode.requires((m,)),
        forall|m: &mut &[u8], out: Result<T, Error>|
            decode.ensures((m,), out) ==> (*final(m))@.len() <= (*m)@.len() && (*final(m))@ == (*m)@.skip(
                (*m)@.len() - (*final(m))@.len(),
            ) && (out.is_ok() ==> (*final(m))@.len() < (*m)@.len()),
    ensures
        final(r)@.len() <= old(r)@.len(),
        final(r)@ == old(r)@.skip(old(r)@.len() - final(r)@.len()),
        match spec_read_u64(old(r)@) {
            None => (res matches Err(Error::DecodeInt(_))) && final(r)@ == old(r)@,
            Some((len, n)) => if n + len <= old(r)@.len() {
                (res matches Ok(set) ==> final(r)@ == old(r)@.skip((n + len) as int) && exists|
                    items: Seq<T>,
                    states: Seq<Seq<u8>>,
                |
                    {
                        &&& set@ == items.to_set()
                        &&& states.len() == items.len() + 1
                        &&& states[0] == old(r)@.subrange(n as int, (n + len) as int)
                        &&& states.last() == Seq::<u8>::empty()
                        &&& forall|i: int|
                            0 <= i < items.len() ==> exists|m: &mut &[u8]|
                                (*m)@ == #[trigger] states[i] && (*final(m))@ == states[i + 1]
                                    && decode.ensures((m,), Ok::<T, Error>(items[i]))
                    }) && (len == 0 ==> (res matches Ok(set) && set@ == Set::<T>::empty())) && (                forall|vals: Seq<T>, wires: Seq<Seq<u8>>|
                    #![trigger concat_all(wires), vals.len()]
                    {
                        &&& wires.len() == vals.len()
                        &&& forall|i: int| 0 <= i < wires.len() ==> (#[trigger] wires[i]).len() > 0
                        &&& old(r)@.subrange(n as int, (n + len) as int) == concat_all(wires)
                        &&& forall|i: int, rest: Seq<u8>, m: &mut &[u8], out: Result<T, Error>|
                        #![trigger decode.ensures((m,), out), wires[i] + rest]
                        0 <= i < vals.len() && (*m)@ == wires[i] + rest && decode.ensures((m,), out)
                            ==> out == Ok::<T, Error>(vals[i]) && (*final(m))@ == rest
                    } ==> (res matches Ok(set) && set@ == vals.to_set())) && (res matches Err(e) ==> exists|states: Seq<Seq<u8>>, vals: Seq<T>|
                    {
                        &&& states.len() == vals.len() + 1
                        &&& states[0] == old(r)@.subrange(n as int, (n + len) as int)
                        &&& states.last().len() > 0
                        &&& forall|i: int|
                            0 <= i < vals.len() ==> exists|m: &mut &[u8]|
                                (*m)@ == #[trigger] states[i] && (*final(m))@ == states[i + 1]
                                    && decode.ensures((m,), Ok::<T, Error>(vals[i]))
                        &&& exists|m: &mut &[u8]| (*m)@ == states.last() && decode.ensures((m,), Err::<T, Error>(e))
                    })
            } else {
                (res matches Err(Error::InsufficientData)) && final(r)@ == old(r)@.skip(n as int)
            },
        },
{
    match decode_vec(r, decode) {
        Ok(items) => Ok(set_of(items)),
        Err(e) => Err(e),
    }
}

/// Decode a Mabo `non_zero<hash_set<T>>`: like [`decode_hash_set`], but an empty set is an error.
///
/// # Errors
///
/// Will return `Err` if the buffer does not have enough remaining data to read the value, the
/// collection is empty, or the `T` type fails to decode.
pub fn decode_non_zero_hash_set<T: std::hash::Hash + Eq, D: Fn(&mut &[u8]) -> Result<T, Error>>(
    r: &mut &[u8],
    decode: D,
) -> (res: Result<NonZero<std::collections::HashSet<T>>, Error>)
    requires
        vstd::std_specs::hash::obeys_key_model::<T>(),
        forall|m: &mut &[u8]| decode.requires((m,)),
        forall|m: &mut &[u8], out: Result<T, Error>|
            decode.ensures((m,), out) ==> (*final(m))@.len() <= (*m)@.len() && (*final(m))@ == (*m)@.skip(
                (*m)@.len() - (*final(m))@.len(),
            ) && (out.is_ok() ==> (*final(m))@.len() < (*m)@.len()),
    ensures
        final(r)@.len() <= old(r)@.len(),
        final(r)@ == old(r)@.skip(old(r)@.len() - final(r)@.len()),
        match spec_read_u64(old(r)@) {
            None => (res matches Err(Error::DecodeInt(_))) && final(r)@ == old(r)@,
            Some((len, n)) => if len == 0 {
                (res matches Err(Error::Zero)) && final(r)@ == old(r)@.skip(n as int)
            } else if n + len <= old(r)@.len() {
                (res matches Ok(set) ==> final(r)@ == old(r)@.skip((n + len) as int)
                    && !set.inner()@.is_empty() && exists|items: Seq<T>, states: Seq<Seq<u8>>|
                    {
                        &&& set.inner()@ == items.to_set()
                        &&& states.len() == items.len() + 1
                        &&& states[0] == old(r)@.subrange(n as int, (n + len) as int)
                        &&& states.last() == Seq::<u8>::empty()
                        &&& forall|i: int|
                            0 <= i < items.len() ==> exists|m: &mut &[u8]|
                                (*m)@ == #[trigger] states[i] && (*final(m))@ == states[i + 1]
                                    && decode.ensures((m,), Ok::<T, Error>(items[i]))
                    }) && (                forall|vals: Seq<T>, wires: Seq<Seq<u8>>|
                    #![trigger concat_all(wires), vals.len()]
                    {
                        &&& wires.len() == vals.len()
                        &&& forall|i: int| 0 <= i < wires.len() ==> (#[trigger] wires[i]).len() > 0
                        &&& old(r)@.subrange(n as int, (n + len) as int) == concat_all(wires)
                        &&& forall|i: int, rest: Seq<u8>, m: &mut &[u8], out: Result<T, Error>|
                        #![trigger decode.ensures((m,), out), wires[i] + rest]
                        0 <= i < vals.len() && (*m)@ == wires[i] + rest && decode.ensures((m,), out)
                            ==> out == Ok::<T, Error>(vals[i]) && (*final(m))@ == rest
                    } ==> (res matches Ok(set) && set.inner()@ == vals.to_set())) && (res matches Err(e) ==> exists|states: Seq<Seq<u8>>, vals: Seq<T>|
                    {
                        &&& states.len() == vals.len() + 1
                        &&& states[0] == old(r)@.subrange(n as int, (n + len) as int)
                        &&& states.last().len() > 0
                        &&& forall|i: int|
                            0 <= i < vals.len() ==> exists|m: &mut &[u8]|
                                (*m)@ == #[trigger] states[i] && (*final(m))@ == states[i + 1]
                                    && decode.ensures((m,), Ok::<T, Error>(vals[i]))
                        &&& exists|m: &mut &[u8]| (*m)@ == states.last() && decode.ensures((m,), Err::<T, Error>(e))
                    })
            } else {
                (res matches Err(Error::InsufficientData)) && final(r)@ == old(r)@.skip(n as int)
            },
        },
{
    match decode_non_zero_vec(r, decode) {
        Ok(items) => {
            let items = items.into_inner();
            let ghost all = items@;
            let set = set_of(items);
            proof {
                assert(all.to_set().contains(all[0]));
            }
            match NonZero::<std::collections::HashSet<T>>::new(set) {
                Some(nz) => Ok(nz),
                None => Err(Error::Zero),
            }
        },
        Err(e) => Err(e),
    }
}

/// The map that inserting the pairs in order gives: a later pair for a key replaces an earlier
/// one.
pub open spec fn map_of<K, V>(pairs: Seq<(K, V)>) -> Map<K, V>
    decreases pairs.len(),
{
    if pairs.len() == 0 {
        Map::empty()
    } else {
        map_of(pairs.drop_last()).insert(pairs.last().0, pairs.last().1)
    }
}

/// A map that decoded entries were inserted into is empty only when no entry was decoded.
proof fn lemma_map_of_empty<K, V>(pairs: Seq<(K, V)>)
    requires
        pairs.len() > 0,
    ensures
        map_of(pairs).contains_key(pairs.last().0),
{
}

/// The bytes of all the entries, one after the other: each key, then its value.
pub open spec fn concat_pairs(keys: Seq<Seq<u8>>, values: Seq<Seq<u8>>) -> Seq<u8>
    decreases keys.len(),
{
    if keys.len() == 0 {
        Seq::empty()
    } else {
        keys[0] + values[0] + concat_pairs(keys.drop_first(), values.drop_first())
    }
}

/// A run of successful entry decodes (keys from `ks[i]` to `vs[i]`, values from `vs[i]` to
/// `ks[i + 1]`) that starts on the pieces of encoded entries, where decoding each key's and each
/// value's bytes (whatever follows them) gives that key or value and leaves what follows, keeps to
/// the pieces.
proof fn lemma_entries_follow<K, V, DK: Fn(&mut &[u8]) -> Result<K, Error>, DV: Fn(&mut &[u8]) -> Result<V, Error>>(
    decode_key: DK,
    decode_value: DV,
    ks: Seq<Seq<u8>>,
    vs: Seq<Seq<u8>>,
    got: Seq<(K, V)>,
    pairs: Seq<(K, V)>,
    kws: Seq<Seq<u8>>,
    vws: Seq<Seq<u8>>,
    k: int,
)
    requires
        forall|m: &mut &[u8], out: Result<K, Error>|
            decode_key.ensures((m,), out) ==> (out.is_ok() ==> (*final(m))@.len() < (*m)@.len()),
        kws.len() == pairs.len(),
        vws.len() == pairs.len(),
        forall|i: int, rest: Seq<u8>, m: &mut &[u8], out: Result<K, Error>|
            #![trigger decode_key.ensures((m,), out), kws[i] + rest]
            0 <= i < pairs.len() && (*m)@ == kws[i] + rest && decode_key.ensures((m,), out) ==> out
                == Ok::<K, Error>(pairs[i].0) && (*final(m))@ == rest,
        forall|i: int, rest: Seq<u8>, m: &mut &[u8], out: Result<V, Error>|
            #![trigger decode_value.ensures((m,), out), vws[i] + rest]
            0 <= i < pairs.len() && (*m)@ == vws[i] + rest && decode_value.ensures((m,), out)
                ==> out == Ok::<V, Error>(pairs[i].1) && (*final(m))@ == rest,
        ks.len() >= got.len() + 1,
        vs.len() >= got.len(),
        ks[0] == concat_pairs(kws, vws),
        forall|i: int|
            0 <= i < got.len() ==> exists|m: &mut &[u8]|
                (*m)@ == #[trigger] ks[i] && (*final(m))@ == vs[i]
                    && decode_key.ensures((m,), Ok::<K, Error>(got[i].0)),
        forall|i: int|
            0 <= i < got.len() ==> exists|m: &mut &[u8]|
                (*m)@ == #[trigger] vs[i] && (*final(m))@ == ks[i + 1]
                    && decode_value.ensures((m,), Ok::<V, Error>(got[i].1)),
        0 <= k <= got.len(),
    ensures
        k <= pairs.len(),
        ks[k] == concat_pairs(kws.skip(k), vws.skip(k)),
        forall|j: int| 0 <= j < k ==> got[j] == pairs[j],
    decreases k,
{
    if k == 0 {
        assert(kws.skip(0) =~= kws);
        assert(vws.skip(0) =~= vws);
    } else {
        let i = k - 1;
        lemma_entries_follow(decode_key, decode_value, ks, vs, got, pairs, kws, vws, i);
        assert(exists|m: &mut &[u8]|
            (*m)@ == ks[i] && (*final(m))@ == vs[i] && decode_key.ensures(
                (m,),
                Ok::<K, Error>(got[i].0),
            ));
        assert(exists|m: &mut &[u8]|
            (*m)@ == vs[i] && (*final(m))@ == ks[i + 1] && decode_value.ensures(
                (m,),
                Ok::<V, Error>(got[i].1),
            ));
        let m = choose|m: &mut &[u8]|
            (*m)@ == ks[i] && (*final(m))@ == vs[i] && decode_key.ensures(
                (m,),
                Ok::<K, Error>(got[i].0),
            );
        let n = choose|m: &mut &[u8]|
            (*m)@ == vs[i] && (*final(m))@ == ks[i + 1] && decode_value.ensures(
                (m,),
                Ok::<V, Error>(got[i].1),
            );
        if i == pairs.len() {
            assert(kws.skip(i) =~= Seq::<Seq<u8>>::empty());
            assert((*m)@.len() == 0);
        } else {
            let rest = concat_pairs(kws.skip(k), vws.skip(k));
            assert(kws.skip(i).drop_first() =~= kws.skip(k));
            assert(vws.skip(i).drop_first() =~= vws.skip(k));
            assert(kws.skip(i)[0] == kws[i]);
            assert(vws.skip(i)[0] == vws[i]);
            assert(ks[i] == kws[i] + (vws[i] + rest));
            assert(decode_key.ensures((m,), Ok::<K, Error>(got[i].0)));
            assert(vs[i] == vws[i] + rest);
            assert(decode_value.ensures((n,), Ok::<V, Error>(got[i].1)));
            assert(got[i] == pairs[i]);
        }
    }
}

/// Pieces whose keys are none of them empty are all gone only where there are none.
proof fn lemma_concat_pairs_empty(keys: Seq<Seq<u8>>, values: Seq<Seq<u8>>)
    requires
        forall|i: int| 0 <= i < keys.len() ==> (#[trigger] keys[i]).len() > 0,
        concat_pairs(keys, values).len() == 0,
    ensures
        keys.len() == 0,
{
    if keys.len() > 0 {
        assert(keys[0].len() > 0);
    }
}

/// A run of successful entry decodes over the pieces of encoded entries that uses them all up
/// has given those entries; one that does not is followed by no failing key or value decode.
proof fn lemma_entries_read_back<K, V, DK: Fn(&mut &[u8]) -> Result<K, Error>, DV: Fn(&mut &[u8]) -> Result<V, Error>>(
    decode_key: DK,
    decode_value: DV,
    ks: Seq<Seq<u8>>,
    vs: Seq<Seq<u8>>,
    got: Seq<(K, V)>,
    pairs: Seq<(K, V)>,
    kws: Seq<Seq<u8>>,
    vws: Seq<Seq<u8>>,
)
    requires
        forall|m: &mut &[u8], out: Result<K, Error>|
            decode_key.ensures((m,), out) ==> (out.is_ok() ==> (*final(m))@.len() < (*m)@.len()),
        kws.len() == pairs.len(),
        vws.len() == pairs.len(),
        forall|i: int| 0 <= i < kws.len() ==> (#[trigger] kws[i]).len() > 0,
        forall|i: int, rest: Seq<u8>, m: &mut &[u8], out: Result<K, Error>|
            #![trigger decode_key.ensures((m,), out), kws[i] + rest]
            0 <= i < pairs.len() && (*m)@ == kws[i] + rest && decode_key.ensures((m,), out) ==> out
                == Ok::<K, Error>(pairs[i].0) && (*final(m))@ == rest,
        forall|i: int, rest: Seq<u8>, m: &mut &[u8], out: Result<V, Error>|
            #![trigger decode_value.ensures((m,), out), vws[i] + rest]
            0 <= i < pairs.len() && (*m)@ == vws[i] + rest && decode_value.ensures((m,), out)
                ==> out == Ok::<V, Error>(pairs[i].1) && (*final(m))@ == rest,
        ks.len() == got.len() + 1,
        vs.len() == got.len(),
        ks[0] == concat_pairs(kws, vws),
        forall|i: int|
            0 <= i < got.len() ==> exists|m: &mut &[u8]|
                (*m)@ == #[trigger] ks[i] && (*final(m))@ == vs[i]
                    && decode_key.ensures((m,), Ok::<K, Error>(got[i].0)),
        forall|i: int|
            0 <= i < got.len() ==> exists|m: &mut &[u8]|
                (*m)@ == #[trigger] vs[i] && (*final(m))@ == ks[i + 1]
                    && decode_value.ensures((m,), Ok::<V, Error>(got[i].1)),
    ensures
        ks.last().len() == 0 ==> got == pairs,
        ks.last().len() > 0 ==> forall|m: &mut &[u8], out: Result<K, Error>|
            (*m)@ == ks.last() && #[trigger] decode_key.ensures((m,), out) ==> out is Ok,
        ks.last().len() > 0 ==> forall|m: &mut &[u8], key: K, n: &mut &[u8], out: Result<V, Error>|
            (*m)@ == ks.last() && #[trigger] decode_key.ensures((m,), Ok::<K, Error>(key))
                && (*n)@ == (*final(m))@ && #[trigger] decode_value.ensures((n,), out) ==> out is Ok,
{
    let k = got.len() as int;
    lemma_entries_follow(decode_key, decode_value, ks, vs, got, pairs, kws, vws, k);
    if ks[k].len() == 0 {
        assert forall|i: int| 0 <= i < kws.skip(k).len() implies (#[trigger] kws.skip(k)[i]).len()
            > 0 by {
            assert(kws.skip(k)[i] == kws[k + i]);
        }
        lemma_concat_pairs_empty(kws.skip(k), vws.skip(k));
        assert(got =~= pairs);
    } else {
        assert(k < pairs.len()) by {
            if k == pairs.len() {
                assert(kws.skip(k) =~= Seq::<Seq<u8>>::empty());
            }
        }
        let rest = concat_pairs(kws.skip(k + 1), vws.skip(k + 1));
        assert(kws.skip(k).drop_first() =~= kws.skip(k + 1));
        assert(vws.skip(k).drop_first() =~= vws.skip(k + 1));
        assert(kws.skip(k)[0] == kws[k]);
        assert(vws.skip(k)[0] == vws[k]);
        assert(ks[k] == kws[k] + (vws[k] + rest));
        assert forall|m: &mut &[u8], out: Result<K, Error>|
            (*m)@ == ks.last() && #[trigger] decode_key.ensures((m,), out) implies out is Ok by {
            assert(decode_key.ensures((m,), out));
        }
        assert forall|m: &mut &[u8], key: K, n: &mut &[u8], out: Result<V, Error>|
            (*m)@ == ks.last() && #[trigger] decode_key.ensures((m,), Ok::<K, Error>(key))
                && (*n)@ == (*final(m))@ && #[trigger] decode_value.ensures((n,), out) implies out is Ok by {
            assert(decode_key.ensures((m,), Ok::<K, Error>(key)));
            assert((*n)@ == vws[k] + rest);
            assert(decode_value.ensures((n,), out));
        }
    }
}

/// Entries decoded from the pieces of encoded entries, where decoding each key's and each value's
/// bytes (whatever follows them) gives that key or value and leaves what follows, are those
/// entries: the map holds them, and no decode failed.
proof fn lemma_entries_decode_back<
    K,
    V,
    DK: Fn(&mut &[u8]) -> Result<K, Error>,
    DV: Fn(&mut &[u8]) -> Result<V, Error>,
>(
    decode_key: DK,
    decode_value: DV,
    input: Seq<u8>,
    res: Result<std::collections::HashMap<K, V>, Error>,
    pairs: Seq<(K, V)>,
    kws: Seq<Seq<u8>>,
    vws: Seq<Seq<u8>>,
)
    requires
        forall|m: &mut &[u8], out: Result<K, Error>|
            decode_key.ensures((m,), out) ==> (out.is_ok() ==> (*final(m))@.len() < (*m)@.len()),
        res matches Ok(map) ==> exists|got: Seq<(K, V)>, ks: Seq<Seq<u8>>, vs: Seq<Seq<u8>>|
            #![trigger ks.len(), vs.len(), got.len()]
            {
                &&& map@ == map_of(got)
                &&& ks.len() == got.len() + 1
                &&& vs.len() == got.len()
                &&& ks[0] == input
                &&& ks.last() == Seq::<u8>::empty()
                &&& forall|i: int|
                    0 <= i < got.len() ==> exists|m: &mut &[u8]|
                        (*m)@ == #[trigger] ks[i] && (*final(m))@ == vs[i]
                            && decode_key.ensures((m,), Ok::<K, Error>(got[i].0))
                &&& forall|i: int|
                    0 <= i < got.len() ==> exists|m: &mut &[u8]|
                        (*m)@ == #[trigger] vs[i] && (*final(m))@ == ks[i + 1]
                            && decode_value.ensures((m,), Ok::<V, Error>(got[i].1))
            },
        res matches Err(e) ==> exists|got: Seq<(K, V)>, ks: Seq<Seq<u8>>, vs: Seq<Seq<u8>>|
            #![trigger ks.len(), vs.len(), got.len()]
            {
                &&& ks.len() == got.len() + 1
                &&& vs.len() == got.len()
                &&& ks[0] == input
                &&& ks.last().len() > 0
                &&& forall|i: int|
                    0 <= i < got.len() ==> exists|m: &mut &[u8]|
                        (*m)@ == #[trigger] ks[i] && (*final(m))@ == vs[i]
                            && decode_key.ensures((m,), Ok::<K, Error>(got[i].0))
                &&& forall|i: int|
                    0 <= i < got.len() ==> exists|m: &mut &[u8]|
                        (*m)@ == #[trigger] vs[i] && (*final(m))@ == ks[i + 1]
                            && decode_value.ensures((m,), Ok::<V, Error>(got[i].1))
                &&& {
                    ||| exists|m: &mut &[u8]|
                        (*m)@ == ks.last() && decode_key.ensures((m,), Err::<K, Error>(e))
                    ||| exists|m: &mut &[u8], key: K, n: &mut &[u8]|
                        (*m)@ == ks.last() && decode_key.ensures((m,), Ok::<K, Error>(key))
                            && (*n)@ == (*final(m))@ && decode_value.ensures((n,), Err::<V, Error>(e))
                }
            },
        kws.len() == pairs.len(),
        vws.len() == pairs.len(),
        forall|i: int| 0 <= i < kws.len() ==> (#[trigger] kws[i]).len() > 0,
        input == concat_pairs(kws, vws),
        forall|i: int, rest: Seq<u8>, m: &mut &[u8], out: Result<K, Error>|
            #![trigger decode_key.ensures((m,), out), kws[i] + rest]
            0 <= i < pairs.len() && (*m)@ == kws[i] + rest && decode_key.ensures((m,), out)
                ==> out == Ok::<K, Error>(pairs[i].0) && (*final(m))@ == rest,
        forall|i: int, rest: Seq<u8>, m: &mut &[u8], out: Result<V, Error>|
            #![trigger decode_value.ensures((m,), out), vws[i] + rest]
            0 <= i < pairs.len() && (*m)@ == vws[i] + rest && decode_value.ensures((m,), out)
                ==> out == Ok::<V, Error>(pairs[i].1) && (*final(m))@ == rest,
    ensures
        (res matches Ok(map) && map@ == map_of(pairs)),
{
    match res {
        Ok(map) => {
            let (got, ks, vs) = choose|got: Seq<(K, V)>, ks: Seq<Seq<u8>>, vs: Seq<Seq<u8>>|
                #![trigger ks.len(), vs.len(), got.len()]
                {
                    &&& map@ == map_of(got)
                    &&& ks.len() == got.len() + 1
                    &&& vs.len() == got.len()
                    &&& ks[0] == input
                    &&& ks.last() == Seq::<u8>::empty()
                    &&& forall|i: int|
                        0 <= i < got.len() ==> exists|m: &mut &[u8]|
                            (*m)@ == #[trigger] ks[i] && (*final(m))@ == vs[i]
                                && decode_key.ensures((m,), Ok::<K, Error>(got[i].0))
                    &&& forall|i: int|
                        0 <= i < got.len() ==> exists|m: &mut &[u8]|
                            (*m)@ == #[trigger] vs[i] && (*final(m))@ == ks[i + 1]
                                && decode_value.ensures((m,), Ok::<V, Error>(got[i].1))
                };
            lemma_entries_read_back(decode_key, decode_value, ks, vs, got, pairs, kws, vws);
        },
        Err(e) => {
            let (got, ks, vs) = choose|got: Seq<(K, V)>, ks: Seq<Seq<u8>>, vs: Seq<Seq<u8>>|
                #![trigger ks.len(), vs.len(), got.len()]
                {
                    &&& ks.len() == got.len() + 1
                    &&& vs.len() == got.len()
                    &&& ks[0] == input
                    &&& ks.last().len() > 0
                    &&& forall|i: int|
                        0 <= i < got.len() ==> exists|m: &mut &[u8]|
                            (*m)@ == #[trigger] ks[i] && (*final(m))@ == vs[i]
                                && decode_key.ensures((m,), Ok::<K, Error>(got[i].0))
                    &&& forall|i: int|
                        0 <= i < got.len() ==> exists|m: &mut &[u8]|
                            (*m)@ == #[trigger] vs[i] && (*final(m))@ == ks[i + 1]
                                && decode_value.ensures((m,), Ok::<V, Error>(got[i].1))
                    &&& {
                        ||| exists|m: &mut &[u8]|
                            (*m)@ == ks.last() && decode_key.ensures((m,), Err::<K, Error>(e))
                        ||| exists|m: &mut &[u8], key: K, n: &mut &[u8]|
                            (*m)@ == ks.last() && decode_key.ensures((m,), Ok::<K, Error>(key))
                                && (*n)@ == (*final(m))@ && decode_value.ensures((n,), Err::<V, Error>(e))
                    }
                };
            lemma_entries_read_back(decode_key, decode_value, ks, vs, got, pairs, kws, vws);
            if exists|m: &mut &[u8]| (*m)@ == ks.last() && decode_key.ensures((m,), Err::<K, Error>(e)) {
                let m = choose|m: &mut &[u8]| (*m)@ == ks.last() && decode_key.ensures((m,), Err::<K, Error>(e));
                assert(decode_key.ensures((m,), Err::<K, Error>(e)));
            } else {
                let (m, key, n) = choose|m: &mut &[u8], key: K, n: &mut &[u8]|
                    (*m)@ == ks.last() && decode_key.ensures((m,), Ok::<K, Error>(key))
                        && (*n)@ == (*final(m))@ && decode_value.ensures((n,), Err::<V, Error>(e));
                assert(decode_key.ensures((m,), Ok::<K, Error>(key)));
                assert(decode_value.ensures((n,), Err::<V, Error>(e)));
            }
        },
    }
}

/// Decode entries (a key with `decode_key`, then its value with `decode_value`) until the reader
/// is exhausted, inserting each into a map.
fn decode_entries<
    K: std::hash::Hash + Eq,
    V,
    DK: Fn(&mut &[u8]) -> Result<K, Error>,
    DV: Fn(&mut &[u8]) -> Result<V, Error>,
>(r: &mut &[u8], decode_key: &DK, decode_value: &DV) -> (res: Result<
    std::collections::HashMap<K, V>,
    Error,
>)
    requires
        vstd::std_specs::hash::obeys_key_model::<K>(),
        forall|m: &mut &[u8]| decode_key.requires((m,)),
        forall|m: &mut &[u8]| decode_value.requires((m,)),
        forall|m: &mut &[u8], out: Result<K, Error>|
            decode_key.ensures((m,), out) ==> (*final(m))@.len() <= (*m)@.len() && (*final(m))@ == (*m)@.skip(
                (*m)@.len() - (*final(m))@.len(),
            ) && (out.is_ok() ==> (*final(m))@.len() < (*m)@.len()),
        forall|m: &mut &[u8], out: Result<V, Error>|
            decode_value.ensures((m,), out) ==> (*final(m))@.len() <= (*m)@.len() && (*final(m))@ == (*m)@.skip(
                (*m)@.len() - (*final(m))@.len(),
            ),
    ensures
        final(r)@.len() <= old(r)@.len(),
        final(r)@ == old(r)@.skip(old(r)@.len() - final(r)@.len()),
        old(r)@.len() > 0 ==> (res matches Ok(map) ==> !map@.is_empty()),
        old(r)@.len() == 0 ==> (res matches Ok(map) && map@ == Map::<K, V>::empty()),
        res matches Ok(map) ==> final(r)@.len() == 0 && exists|pairs: Seq<(K, V)>, ks: Seq<Seq<u8>>, vs: Seq<Seq<u8>>|
            #![trigger ks.len(), vs.len(), pairs.len()]
            {
                &&& map@ == map_of(pairs)
                &&& ks.len() == pairs.len() + 1
                &&& vs.len() == pairs.len()
                &&& ks[0] == old(r)@
                &&& ks.last() == Seq::<u8>::empty()
                &&& forall|i: int|
                    0 <= i < pairs.len() ==> exists|m: &mut &[u8]|
                        (*m)@ == #[trigger] ks[i] && (*final(m))@ == vs[i]
                            && decode_key.ensures((m,), Ok::<K, Error>(pairs[i].0))
                &&& forall|i: int|
                    0 <= i < pairs.len() ==> exists|m: &mut &[u8]|
                        (*m)@ == #[trigger] vs[i] && (*final(m))@ == ks[i + 1]
                            && decode_value.ensures((m,), Ok::<V, Error>(pairs[i].1))
            },
        res matches Err(e) ==> exists|pairs: Seq<(K, V)>, ks: Seq<Seq<u8>>, vs: Seq<Seq<u8>>|
            #![trigger ks.len(), vs.len(), pairs.len()]
            {
                &&& ks.len() == pairs.len() + 1
                &&& vs.len() == pairs.len()
                &&& ks[0] == old(r)@
                &&& ks.last().len() > 0
                &&& forall|i: int|
                    0 <= i < pairs.len() ==> exists|m: &mut &[u8]|
                        (*m)@ == #[trigger] ks[i] && (*final(m))@ == vs[i]
                            && decode_key.ensures((m,), Ok::<K, Error>(pairs[i].0))
                &&& forall|i: int|
                    0 <= i < pairs.len() ==> exists|m: &mut &[u8]|
                        (*m)@ == #[trigger] vs[i] && (*final(m))@ == ks[i + 1]
                            && decode_value.ensures((m,), Ok::<V, Error>(pairs[i].1))
                &&& {
                    ||| exists|m: &mut &[u8]|
                        (*m)@ == ks.last() && decode_key.ensures((m,), Err::<K, Error>(e))
                    ||| exists|m: &mut &[u8], key: K, n: &mut &[u8]|
                        (*m)@ == ks.last() && decode_key.ensures((m,), Ok::<K, Error>(key))
                            && (*n)@ == (*final(m))@ && decode_value.ensures((n,), Err::<V, Error>(e))
                }
            },
{
    let mut map = std::collections::HashMap::new();
    let ghost mut pairs: Seq<(K, V)> = Seq::empty();
    let ghost mut ks: Seq<Seq<u8>> = seq![r@];
    let ghost mut vs: Seq<Seq<u8>> = Seq::empty();
    while r.len() > 0
        invariant
            vstd::std_specs::hash::obeys_key_model::<K>(),
            forall|m: &mut &[u8]| decode_key.requires((m,)),
            forall|m: &mut &[u8]| decode_value.requires((m,)),
            forall|m: &mut &[u8], out: Result<K, Error>|
            decode_key.ensures((m,), out) ==> (*final(m))@.len() <= (*m)@.len() && (*final(m))@ == (*m)@.skip(
                (*m)@.len() - (*final(m))@.len(),
            ) && (out.is_ok() ==> (*final(m))@.len() < (*m)@.len()),
            forall|m: &mut &[u8], out: Result<V, Error>|
            decode_value.ensures((m,), out) ==> (*final(m))@.len() <= (*m)@.len() && (*final(m))@ == (*m)@.skip(
                (*m)@.len() - (*final(m))@.len(),
            ),
            r@.len() <= old(r)@.len(),
            r@ == old(r)@.skip(old(r)@.len() - r@.len()),
            map@ == map_of(pairs),
            r@.len() < old(r)@.len() ==> pairs.len() > 0,
            pairs.len() <= old(r)@.len() - r@.len(),
            ks.len() == pairs.len() + 1,
            vs.len() == pairs.len(),
            forall|i: int|
                0 <= i < pairs.len() ==> exists|m: &mut &[u8]|
                    (*m)@ == #[trigger] ks[i] && (*final(m))@ == vs[i]
                        && decode_key.ensures((m,), Ok::<K, Error>(pairs[i].0)),
            forall|i: int|
                0 <= i < pairs.len() ==> exists|m: &mut &[u8]|
                    (*m)@ == #[trigger] vs[i] && (*final(m))@ == ks[i + 1]
                        && decode_value.ensures((m,), Ok::<V, Error>(pairs[i].1)),
            ks[0] == old(r)@,
            ks.last() == r@,
        decreases r@.len(),
    {
        let ghost before = r@;
        let key = match decode_key(r) {
            Ok(key) => key,
            Err(e) => {
                proof {
                    assert(r@ =~= old(r)@.skip(old(r)@.len() - r@.len())) by {
                        assert(r@ == before.skip(before.len() - r@.len()));
                    }
                    assert(exists|m: &mut &[u8]|
                        (*m)@ == ks.last() && (*final(m))@ == r@ && decode_key.ensures(
                            (m,),
                            Err::<K, Error>(e),
                        ));
                }
                return Err(e);
            },
        };
        let ghost middle = r@;
        let value = match decode_value(r) {
            Ok(value) => value,
            Err(e) => {
                proof {
                    assert(r@ =~= old(r)@.skip(old(r)@.len() - r@.len())) by {
                        assert(r@ == middle.skip(middle.len() - r@.len()));
                        assert(middle == before.skip(before.len() - middle.len()));
                    }
                    assert(exists|m: &mut &[u8], key: K, n: &mut &[u8]|
                        (*m)@ == ks.last() && decode_key.ensures((m,), Ok::<K, Error>(key))
                            && (*n)@ == (*final(m))@ && (*final(n))@ == r@
                            && decode_value.ensures((n,), Err::<V, Error>(e)));
                }
                return Err(e);
            },
        };
        proof {
            assert(r@ =~= old(r)@.skip(old(r)@.len() - r@.len())) by {
                assert(r@ == middle.skip(middle.len() - r@.len()));
                assert(middle == before.skip(before.len() - middle.len()));
            }
            let prev_ks = ks;
            let prev_vs = vs;
            let prev_pairs = pairs;
            pairs = pairs.push((key, value));
            ks = ks.push(r@);
            vs = vs.push(middle);
            assert(pairs.drop_last() =~= prev_pairs);
            assert forall|i: int|
                0 <= i < pairs.len() implies exists|m: &mut &[u8]|
                    (*m)@ == #[trigger] ks[i] && (*final(m))@ == vs[i]
                        && decode_key.ensures((m,), Ok::<K, Error>(pairs[i].0)) by {
                if i < prev_pairs.len() {
                    assert(ks[i] == prev_ks[i] && vs[i] == prev_vs[i] && pairs[i] == prev_pairs[i]);
                }
            }
            assert forall|i: int|
                0 <= i < pairs.len() implies exists|m: &mut &[u8]|
                    (*m)@ == #[trigger] vs[i] && (*final(m))@ == ks[i + 1]
                        && decode_value.ensures((m,), Ok::<V, Error>(pairs[i].1)) by {
                if i < prev_pairs.len() {
                    assert(vs[i] == prev_vs[i] && ks[i + 1] == prev_ks[i + 1] && pairs[i] == prev_pairs[i]);
                }
            }
        }
        map.insert(key, value);
    }
    proof {
        assert(r@ =~= Seq::<u8>::empty());
        if old(r)@.len() > 0 {
            lemma_map_of_empty(pairs);
        }
    }
    Ok(map)
}

/// Decode a Mabo `hash_map<K, V>` hash map value: a byte length as _Varint_, then entries (a key
/// decoded with `decode_key`, then its value with `decode_value`) until that many bytes are used
/// up, inserted in order into a map (a later entry for a key replaces an earlier one).
///
/// # Errors
///
/// Will return `Err` if the buffer does not have enough remaining data to read the value, or the
/// `K`/`V` type fails to decode.
pub fn decode_hash_map<
    K: std::hash::Hash + Eq,
    V,
    DK: Fn(&mut &[u8]) -> Result<K, Error>,
    DV: Fn(&mut &[u8]) -> Result<V, Error>,
>(r: &mut &[u8], decode_key: DK, decode_value: DV) -> (res: Result<
    std::collections::HashMap<K, V>,
    Error,
>)
    requires
        vstd::std_specs::hash::obeys_key_model::<K>(),
        forall|m: &mut &[u8]| decode_key.requires((m,)),
        forall|m: &mut &[u8]| decode_value.requires((m,)),
        forall|m: &mut &[u8], out: Result<K, Error>|
            decode_key.ensures((m,), out) ==> (*final(m))@.len() <= (*m)@.len() && (*final(m))@ == (*m)@.skip(
                (*m)@.len() - (*final(m))@.len(),
            ) && (out.is_ok() ==> (*final(m))@.len() < (*m)@.len()),
        forall|m: &mut &[u8], out: Result<V, Error>|
            decode_value.ensures((m,), out) ==> (*final(m))@.len() <= (*m)@.len() && (*final(m))@ == (*m)@.skip(
                (*m)@.len() - (*final(m))@.len(),
            ),
    ensures
        final(r)@.len() <= old(r)@.len(),
        final(r)@ == old(r)@.skip(old(r)@.len() - final(r)@.len()),
        match spec_read_u64(old(r)@) {
            None => (res matches Err(Error::DecodeInt(_))) && final(r)@ == old(r)@,
            Some((len, n)) => if n + len <= old(r)@.len() {
                (res matches Ok(map) ==> final(r)@ == old(r)@.skip((n + len) as int) && (len > 0 ==> !map@.is_empty())
                    && exists|pairs: Seq<(K, V)>, ks: Seq<Seq<u8>>, vs: Seq<Seq<u8>>|
                    #![trigger ks.len(), vs.len(), pairs.len()]
                    {
                        &&& map@ == map_of(pairs)
                        &&& ks.len() == pairs.len() + 1
                        &&& vs.len() == pairs.len()
                        &&& ks[0] == old(r)@.subrange(n as int, (n + len) as int)
                        &&& ks.last() == Seq::<u8>::empty()
                        &&& forall|i: int|
                            0 <= i < pairs.len() ==> exists|m: &mut &[u8]|
                                (*m)@ == #[trigger] ks[i] && (*final(m))@ == vs[i]
                                    && decode_key.ensures((m,), Ok::<K, Error>(pairs[i].0))
                        &&& forall|i: int|
                            0 <= i < pairs.len() ==> exists|m: &mut &[u8]|
                                (*m)@ == #[trigger] vs[i] && (*final(m))@ == ks[i + 1]
                                    && decode_value.ensures((m,), Ok::<V, Error>(pairs[i].1))
                    }) && (len == 0 ==> (res matches Ok(map) && map@ == Map::<K, V>::empty())) && (forall|pairs: Seq<(K, V)>, kws: Seq<Seq<u8>>, vws: Seq<Seq<u8>>|
                    #![trigger concat_pairs(kws, vws), pairs.len()]
                    {
                        &&& kws.len() == pairs.len()
                        &&& vws.len() == pairs.len()
                        &&& forall|i: int| 0 <= i < kws.len() ==> (#[trigger] kws[i]).len() > 0
                        &&& old(r)@.subrange(n as int, (n + len) as int) == concat_pairs(kws, vws)
                        &&& forall|i: int, rest: Seq<u8>, m: &mut &[u8], out: Result<K, Error>|
                            #![trigger decode_key.ensures((m,), out), kws[i] + rest]
                            0 <= i < pairs.len() && (*m)@ == kws[i] + rest && decode_key.ensures((m,), out)
                                ==> out == Ok::<K, Error>(pairs[i].0) && (*final(m))@ == rest
                        &&& forall|i: int, rest: Seq<u8>, m: &mut &[u8], out: Result<V, Error>|
                            #![trigger decode_value.ensures((m,), out), vws[i] + rest]
                            0 <= i < pairs.len() && (*m)@ == vws[i] + rest && decode_value.ensures((m,), out)
                                ==> out == Ok::<V, Error>(pairs[i].1) && (*final(m))@ == rest
                    } ==> (res matches Ok(map) && map@ == map_of(pairs))) && (res matches Err(e)
                    ==> exists|pairs: Seq<(K, V)>, ks: Seq<Seq<u8>>, vs: Seq<Seq<u8>>|
                    #![trigger ks.len(), vs.len(), pairs.len()]
                    {
                        &&& ks.len() == pairs.len() + 1
                        &&& vs.len() == pairs.len()
                        &&& ks[0] == old(r)@.subrange(n as int, (n + len) as int)
                        &&& ks.last().len() > 0
                        &&& forall|i: int|
                            0 <= i < pairs.len() ==> exists|m: &mut &[u8]|
                                (*m)@ == #[trigger] ks[i] && (*final(m))@ == vs[i]
                                    && decode_key.ensures((m,), Ok::<K, Error>(pairs[i].0))
                        &&& forall|i: int|
                            0 <= i < pairs.len() ==> exists|m: &mut &[u8]|
                                (*m)@ == #[trigger] vs[i] && (*final(m))@ == ks[i + 1]
                                    && decode_value.ensures((m,), Ok::<V, Error>(pairs[i].1))
                        &&& {
                            ||| exists|m: &mut &[u8]|
                                (*m)@ == ks.last() && decode_key.ensures((m,), Err::<K, Error>(e))
                            ||| exists|m: &mut &[u8], key: K, n: &mut &[u8]|
                                (*m)@ == ks.last() && decode_key.ensures((m,), Ok::<K, Error>(key))
                                    && (*n)@ == (*final(m))@ && decode_value.ensures((n,), Err::<V, Error>(e))
                        }
                    })
            } else {
                (res matches Err(Error::InsufficientData)) && final(r)@ == old(r)@.skip(n as int)
            },
        },
{
    proof {
        varint::lemma_decode_len(r@, 10);
    }
    let len = decode_u64(r)?;
    if (r.len() as u64) < len {
        return Err(Error::InsufficientData);
    }
    let ghost mid = r@;
    let len = len as usize;
    let mut sub = vstd::slice::slice_subrange(*r, 0, len);
    proof {
        assert(sub@ =~= mid.take(len as int));
    }
    let ghost input = sub@;
    let res = decode_entries(&mut sub, &decode_key, &decode_value);
    let consumed = len - sub.len();
    proof {
        assert(mid.take(len as int).skip(consumed as int) == sub@);
    }
    advance(r, consumed);
    proof {
        let n = spec_read_u64(old(r)@).unwrap().1;
        assert(mid.take(len as int) =~= old(r)@.subrange(n as int, (n + len) as int));
        assert(mid.skip(len as int) =~= old(r)@.skip(n + len));
        assert(r@ =~= old(r)@.skip(old(r)@.len() - r@.len()));
        if res is Ok {
            assert(consumed == len);
        }
        assert forall|pairs: Seq<(K, V)>, kws: Seq<Seq<u8>>, vws: Seq<Seq<u8>>|
            #![trigger concat_pairs(kws, vws), pairs.len()]
            {
                &&& kws.len() == pairs.len()
                &&& vws.len() == pairs.len()
                &&& forall|i: int| 0 <= i < kws.len() ==> (#[trigger] kws[i]).len() > 0
                &&& input == concat_pairs(kws, vws)
                &&& forall|i: int, rest: Seq<u8>, m: &mut &[u8], out: Result<K, Error>|
                    #![trigger decode_key.ensures((m,), out), kws[i] + rest]
                    0 <= i < pairs.len() && (*m)@ == kws[i] + rest && decode_key.ensures((m,), out)
                        ==> out == Ok::<K, Error>(pairs[i].0) && (*final(m))@ == rest
                &&& forall|i: int, rest: Seq<u8>, m: &mut &[u8], out: Result<V, Error>|
                    #![trigger decode_value.ensures((m,), out), vws[i] + rest]
                    0 <= i < pairs.len() && (*m)@ == vws[i] + rest && decode_value.ensures((m,), out)
                        ==> out == Ok::<V, Error>(pairs[i].1) && (*final(m))@ == rest
            } implies (res matches Ok(map) && map@ == map_of(pairs)) by {
            lemma_entries_decode_back(decode_key, decode_value, input, res, pairs, kws, vws);
        }
    }
    res
}

/// Decode a Mabo `non_zero<hash_map<K, V>>`: like [`decode_hash_map`], but an empty map is an
/// error.
///
/// # Errors
///
/// Will return `Err` if the buffer does not have enough remaining data to read the value, the
/// collection is empty, or the `K`/`V` type fails to decode.
pub fn decode_non_zero_hash_map<
    K: std::hash::Hash + Eq,
    V,
    DK: Fn(&mut &[u8]) -> Result<K, Error>,
    DV: Fn(&mut &[u8]) -> Result<V, Error>,
>(r: &mut &[u8], decode_key: DK, decode_value: DV) -> (res: Result<
    NonZero<std::collections::HashMap<K, V>>,
    Error,
>)
    requires
        vstd::std_specs::hash::obeys_key_model::<K>(),
        forall|m: &mut &[u8]| decode_key.requires((m,)),
        forall|m: &mut &[u8]| decode_value.requires((m,)),
        forall|m: &mut &[u8], out: Result<K, Error>|
            decode_key.ensures((m,), out) ==> (*final(m))@.len() <= (*m)@.len() && (*final(m))@ == (*m)@.skip(
                (*m)@.len() - (*final(m))@.len(),
            ) && (out.is_ok() ==> (*final(m))@.len() < (*m)@.len()),
        forall|m: &mut &[u8], out: Result<V, Error>|
            decode_value.ensures((m,), out) ==> (*final(m))@.len() <= (*m)@.len() && (*final(m))@ == (*m)@.skip(
                (*m)@.len() - (*final(m))@.len(),
            ),
    ensures
        final(r)@.len() <= old(r)@.len(),
        final(r)@ == old(r)@.skip(old(r)@.len() - final(r)@.len()),
        match spec_read_u64(old(r)@) {
            None => (res matches Err(Error::DecodeInt(_))) && final(r)@ == old(r)@,
            Some((len, n)) => if len == 0 {
                (res matches Err(Error::Zero)) && final(r)@ == old(r)@.skip(n as int)
            } else if n + len <= old(r)@.len() {
                (res matches Ok(map) ==> final(r)@ == old(r)@.skip((n + len) as int) && !map.inner()@.is_empty()
                    && exists|pairs: Seq<(K, V)>, ks: Seq<Seq<u8>>, vs: Seq<Seq<u8>>|
                    #![trigger ks.len(), vs.len(), pairs.len()]
                    {
                        &&& map.inner()@ == map_of(pairs)
                        &&& ks.len() == pairs.len() + 1
                        &&& vs.len() == pairs.len()
                        &&& ks[0] == old(r)@.subrange(n as int, (n + len) as int)
                        &&& ks.last() == Seq::<u8>::empty()
                        &&& forall|i: int|
                            0 <= i < pairs.len() ==> exists|m: &mut &[u8]|
                                (*m)@ == #[trigger] ks[i] && (*final(m))@ == vs[i]
                                    && decode_key.ensures((m,), Ok::<K, Error>(pairs[i].0))
                        &&& forall|i: int|
                            0 <= i < pairs.len() ==> exists|m: &mut &[u8]|
                                (*m)@ == #[trigger] vs[i] && (*final(m))@ == ks[i + 1]
                                    && decode_value.ensures((m,), Ok::<V, Error>(pairs[i].1))
                    }) && (forall|pairs: Seq<(K, V)>, kws: Seq<Seq<u8>>, vws: Seq<Seq<u8>>|
                    #![trigger concat_pairs(kws, vws), pairs.len()]
                    {
                        &&& kws.len() == pairs.len()
                        &&& vws.len() == pairs.len()
                        &&& forall|i: int| 0 <= i < kws.len() ==> (#[trigger] kws[i]).len() > 0
                        &&& old(r)@.subrange(n as int, (n + len) as int) == concat_pairs(kws, vws)
                        &&& forall|i: int, rest: Seq<u8>, m: &mut &[u8], out: Result<K, Error>|
                            #![trigger decode_key.ensures((m,), out), kws[i] + rest]
                            0 <= i < pairs.len() && (*m)@ == kws[i] + rest && decode_key.ensures((m,), out)
                                ==> out == Ok::<K, Error>(pairs[i].0) && (*final(m))@ == rest
                        &&& forall|i: int, rest: Seq<u8>, m: &mut &[u8], out: Result<V, Error>|
                            #![trigger decode_value.ensures((m,), out), vws[i] + rest]
                            0 <= i < pairs.len() && (*m)@ == vws[i] + rest && decode_value.ensures((m,), out)
                                ==> out == Ok::<V, Error>(pairs[i].1) && (*final(m))@ == rest
                    } ==> (res matches Ok(map) && map.inner()@ == map_of(pairs))) && (res matches Err(e)
                    ==> exists|pairs: Seq<(K, V)>, ks: Seq<Seq<u8>>, vs: Seq<Seq<u8>>|
                    #![trigger ks.len(), vs.len(), pairs.len()]
                    {
                        &&& ks.len() == pairs.len() + 1
                        &&& vs.len() == pairs.len()
                        &&& ks[0] == old(r)@.subrange(n as int, (n + len) as int)
                        &&& ks.last().len() > 0
                        &&& forall|i: int|
                            0 <= i < pairs.len() ==> exists|m: &mut &[u8]|
                                (*m)@ == #[trigger] ks[i] && (*final(m))@ == vs[i]
                                    && decode_key.ensures((m,), Ok::<K, Error>(pairs[i].0))
                        &&& forall|i: int|
                            0 <= i < pairs.len() ==> exists|m: &mut &[u8]|
                                (*m)@ == #[trigger] vs[i] && (*final(m))@ == ks[i + 1]
                                    && decode_value.ensures((m,), Ok::<V, Error>(pairs[i].1))
                        &&& {
                            ||| exists|m: &mut &[u8]|
                                (*m)@ == ks.last() && decode_key.ensures((m,), Err::<K, Error>(e))
                            ||| exists|m: &mut &[u8], key: K, n: &mut &[u8]|
                                (*m)@ == ks.last() && decode_key.ensures((m,), Ok::<K, Error>(key))
                                    && (*n)@ == (*final(m))@ && decode_value.ensures((n,), Err::<V, Error>(e))
                        }
                    })
            } else {
                (res matches Err(Error::InsufficientData)) && final(r)@ == old(r)@.skip(n as int)
            },
        },
{
    proof {
        varint::lemma_decode_len(r@, 10);
    }
    let mut probe: &[u8] = *r;
    let len = decode_u64(&mut probe)?;
    if len == 0 {
        *r = probe;
        return Err(Error::Zero);
    }
    let res = decode_hash_map(r, decode_key, decode_value);
    match res {
        Ok(map) => {
            match NonZero::<std::collections::HashMap<K, V>>::new(map) {
                Some(nz) => Ok(nz),
                None => Err(Error::Zero),
            }
        },
        Err(e) => Err(e),
    }
}

/// Decode a Mabo `option<T>` option value: a presence byte, which must be `1` for the value
/// decoded by `decode` to follow.
///
/// # Errors
///
/// Will return `Err` if the buffer does not have enough remaining data to read the value, or the
/// `T` type fails to decode.
pub fn decode_option<T, D: Fn(&mut &[u8]) -> Result<T, Error>>(r: &mut &[u8], decode: D) -> (res:
    Result<Option<T>, Error>)
    requires
        forall|m: &mut &[u8]| decode.requires((m,)),
    ensures
        old(r)@.len() == 0 ==> (res matches Err(Error::InsufficientData)) && final(r)@ == old(r)@,
        old(r)@.len() > 0 && old(r)@[0] != 1 ==> (res matches Ok(None)) && final(r)@ == old(
            r,
        )@.skip(1),
        old(r)@.len() > 0 && old(r)@[0] == 1 ==> exists|m: &mut &[u8], out: Result<T, Error>|
            {
                &&& (*m)@ == old(r)@.skip(1)
                &&& (*final(m))@ == final(r)@
                &&& decode.ensures((m,), out)
                &&& match out {
                    Ok(v) => res == Ok::<Option<T>, Error>(Some(v)),
                    Err(e) => res == Err::<Option<T>, Error>(e),
                }
            },
{
    let some = decode_u8(r)? == 1;
    if some {
        match decode(r) {
            Ok(v) => Ok(Some(v)),
            Err(e) => Err(e),
        }
    } else {
        Ok(None)
    }
}

// ------------------------------------------------------------------------------------------------
// Identifiers and skipping
// ------------------------------------------------------------------------------------------------

/// Decode a Mabo field identifier.
///
/// # Errors
///
/// Will return `Err` if the value fails to decode or the identifier has an invalid field
/// encoding.
pub fn decode_id(r: &mut &[u8]) -> (res: Result<FieldId, Error>)
    ensures
        match spec_decode(old(r)@, 5) {
            Some((v, n)) => {
                let raw = (v % modulus_u32()) as u32;
                &&& final(r)@ == old(r)@.skip(n as int)
                &&& match spec_encoding_from_u32(raw) {
                    Some(encoding) => res == Ok::<FieldId, Error>(
                        FieldId { value: raw / 8, encoding },
                    ),
                    None => res matches Err(Error::UnknownEncoding(x)) && x == raw,
                }
            },
            None => res matches Err(Error::DecodeInt(_)) && final(r)@ == old(r)@,
        },
{
    let id = decode_u32(r)?;
    match FieldId::from_u32(id) {
        Some(field_id) => Ok(field_id),
        None => Err(Error::UnknownEncoding(id)),
    }
}

/// Decode a Mabo enum variant identifier.
///
/// # Errors
///
/// Will return `Err` if the value fails to decode.
pub fn decode_variant_id(r: &mut &[u8]) -> (res: Result<VariantId, Error>)
    ensures
        match spec_decode(old(r)@, 5) {
            Some((v, n)) => res == Ok::<VariantId, Error>(
                VariantId { value: (v % modulus_u32()) as u32 },
            ) && final(r)@ == old(r)@.skip(n as int),
            None => res matches Err(Error::DecodeInt(_)) && final(r)@ == old(r)@,
        },
{
    let value = decode_u32(r)?;
    Ok(VariantId::new(value))
}

/// Decode a field, but skip over the value instead of fully decoding it.
///
/// # Errors
///
/// Will return `Err` if the buffer does not have enough remaining data to skip over the value, or
/// the decoding of data in fails in the process. For example to skip a _Varint_, it still needs to
/// decoded partially to find its end.
pub fn decode_skip(r: &mut &[u8], encoding: FieldEncoding) -> (res: Result<(), Error>)
    ensures
        match spec_skip(old(r)@, encoding) {
            Some(rest) => res.is_ok() && final(r)@ == rest,
            None => res.is_err(),
        },
        encoding == FieldEncoding::LengthPrefixed && spec_read_u64(old(r)@).is_none()
            ==> res matches Err(Error::DecodeInt(_)),
        encoding != FieldEncoding::LengthPrefixed ==> (res.is_err() ==> res matches Err(
            Error::InsufficientData,
        )),
        encoding == FieldEncoding::Varint && res.is_err() ==> final(r)@.len() == 0,
        encoding == FieldEncoding::LengthPrefixed ==> match spec_read_u64(old(r)@) {
            None => final(r)@ == old(r)@,
            Some((len, n)) => n + len > old(r)@.len() ==> (res matches Err(Error::InsufficientData))
                && final(r)@ == old(r)@.skip(n as int),
        },
        (encoding == FieldEncoding::Fixed1 || encoding == FieldEncoding::Fixed4 || encoding
            == FieldEncoding::Fixed8) && res.is_err() ==> final(r)@ == old(r)@,
{
    match encoding {
        FieldEncoding::Varint => {
            let ghost start = r@;
            let ghost mut k: int = 0;
            loop
                invariant
                    start == old(r)@,
                    encoding == FieldEncoding::Varint,
                    0 <= k <= start.len(),
                    r@ == start.skip(k),
                    forall|j: int| 0 <= j < k ==> start[j] >= 128,
                decreases r@.len(),
            {
                if r.len() < 1 {
                    proof {
                        assert(k == start.len());
                        varint::lemma_varint_end_none(start);
                    }
                    return Err(Error::InsufficientData);
                }
                let b = r[0];
                advance(r, 1);
                proof {
                    assert(b == start[k]);
                    k = k + 1;
                    assert(start.skip(k - 1).skip(1) =~= start.skip(k));
                }
                if b & 0x80 == 0 {
                    assert(b & 0x80 == 0 ==> b < 128) by (bit_vector);
                    proof {
                        varint::lemma_varint_end_iff(start, k as nat);
                    }
                    return Ok(());
                }
                assert(b & 0x80 != 0 ==> b >= 128) by (bit_vector);
            }
        },
        FieldEncoding::LengthPrefixed => {
            let len = decode_u64(r)?;
            proof {
                varint::lemma_decode_len(old(r)@, 10);
            }
            if (r.len() as u64) < len {
                return Err(Error::InsufficientData);
            }
            advance(r, len as usize);
            proof {
                let n = spec_read_u64(old(r)@).unwrap().1;
                assert(r@ =~= old(r)@.skip(n + len));
            }
            Ok(())
        },
        FieldEncoding::Fixed1 => {
            if r.len() < 1 {
                return Err(Error::InsufficientData);
            }
            advance(r, 1);
            Ok(())
        },
        FieldEncoding::Fixed4 => {
            if r.len() < 4 {
                return Err(Error::InsufficientData);
            }
            advance(r, 4);
            Ok(())
        },
        FieldEncoding::Fixed8 => {
            if r.len() < 8 {
                return Err(Error::InsufficientData);
            }
            advance(r, 8);
            Ok(())
        },
    }
}


// ------------------------------------------------------------------------------------------------
// Laws: decoding reads back what encoding wrote
// ------------------------------------------------------------------------------------------------

/// A decoded `bool` is the encoded one, and exactly its byte is consumed.
pub proof fn law_bool_roundtrip(value: bool, rest: Seq<u8>)
    ensures
        (wire_bool(value) + rest).len() > 0,
        ((wire_bool(value) + rest)[0] != 0) == value,
        (wire_bool(value) + rest).skip(1) == rest,
{
    assert((wire_bool(value) + rest).skip(1) =~= rest);
}

/// A byte array is read back unchanged, and the bytes after it are left.
pub proof fn law_bytes_roundtrip(value: Seq<u8>, rest: Seq<u8>)
    requires
        value.len() < modulus_u64(),
    ensures
        spec_read_bytes(wire_bytes(value) + rest) == Some((value, rest)),
{
    let len = value.len();
    let s = wire_bytes(value) + rest;
    assert(s =~= spec_encode(len) + (value + rest));
    varint::lemma_encode_len_u64(len as u64);
    varint::law_roundtrip_u64(len as u64, value + rest);
    let n = spec_encode(len).len();
    assert(s.subrange(n as int, (n + len) as int) =~= value);
    assert(s.skip((n + len) as int) =~= rest);
}

/// A string is read back unchanged: its bytes are valid UTF-8 that decode to the same
/// characters, and the bytes after it are left.
pub proof fn law_string_roundtrip(value: Seq<char>, rest: Seq<u8>)
    requires
        vstd::utf8::encode_utf8(value).len() < modulus_u64(),
    ensures
        spec_read_bytes(wire_string(value) + rest) == Some((vstd::utf8::encode_utf8(value), rest)),
        vstd::utf8::valid_utf8(vstd::utf8::encode_utf8(value)),
        vstd::utf8::decode_utf8(vstd::utf8::encode_utf8(value)) == value,
{
    law_bytes_roundtrip(vstd::utf8::encode_utf8(value), rest);
    vstd::utf8::encode_utf8_valid_utf8(value);
    vstd::utf8::encode_utf8_decode_utf8(value);
}

/// A field identifier whose value fits in 29 bits is read back unchanged.
pub proof fn law_field_id_wire_roundtrip(id: FieldId, rest: Seq<u8>)
    requires
        id.value < 0x2000_0000,
    ensures
        spec_decode(wire_field_id(id) + rest, 5) == Some(
            (spec_field_id_u32(id) as nat, wire_field_id(id).len()),
        ),
        spec_encoding_from_u32(spec_field_id_u32(id)) == Some(id.encoding),
        spec_field_id_u32(id) / 8 == id.value,
{
    varint::law_roundtrip_u32(spec_field_id_u32(id), rest);
    crate::law_field_id_roundtrip(id);
}

/// Skipping a field passes over exactly the bytes of its encoded value: a _Varint_, a
/// length-prefixed byte array, or the fixed count of bytes.
pub proof fn law_skip_encoded(v: nat, b: Seq<u8>, fixed: Seq<u8>, rest: Seq<u8>)
    requires
        b.len() < modulus_u64(),
    ensures
        spec_skip(spec_encode(v) + rest, FieldEncoding::Varint) == Some(rest),
        spec_skip(wire_bytes(b) + rest, FieldEncoding::LengthPrefixed) == Some(rest),
        fixed.len() == 1 ==> spec_skip(fixed + rest, FieldEncoding::Fixed1) == Some(rest),
        fixed.len() == 4 ==> spec_skip(fixed + rest, FieldEncoding::Fixed4) == Some(rest),
        fixed.len() == 8 ==> spec_skip(fixed + rest, FieldEncoding::Fixed8) == Some(rest),
{
    varint::lemma_encode_shape(v);
    varint::lemma_varint_end_prefix(spec_encode(v), rest);
    assert((spec_encode(v) + rest).skip(spec_encode(v).len() as int) =~= rest);
    law_bytes_roundtrip(b, rest);
    assert((fixed + rest).skip(fixed.len() as int) =~= rest);
}


/// Values that can decode themselves from Mabo encoded data.
pub trait Decode: Sized {
    /// What reading the value from the front of the bytes gives: the value and the count of bytes
    /// it takes, or nothing where the bytes do not hold one.
    spec fn spec_read(s: Seq<u8>) -> Option<(Self, nat)>;

    /// Read the encoded data from the provided buffer.
    ///
    /// # Errors
    ///
    /// Will return `Err` if the buffer does not have enough remaining data to read the value, or
    /// the data is not a valid encoding of it.
    fn decode(r: &mut &[u8]) -> (res: Result<Self, Error>)
        ensures
            match Self::spec_read(old(r)@) {
                Some((v, n)) => res == Ok::<Self, Error>(v) && final(r)@ == old(r)@.skip(n as int),
                None => res is Err && final(r)@ == old(r)@,
            },
    ;
}

impl Decode for bool {
    open spec fn spec_read(s: Seq<u8>) -> Option<(bool, nat)> {
        if s.len() > 0 {
            Some((s[0] != 0, 1))
        } else {
            None
        }
    }

    fn decode(r: &mut &[u8]) -> (res: Result<bool, Error>) {
        decode_bool(r)
    }
}

impl Decode for u8 {
    open spec fn spec_read(s: Seq<u8>) -> Option<(u8, nat)> {
        if s.len() > 0 {
            Some((s[0], 1))
        } else {
            None
        }
    }

    fn decode(r: &mut &[u8]) -> (res: Result<u8, Error>) {
        decode_u8(r)
    }
}

impl Decode for i8 {
    open spec fn spec_read(s: Seq<u8>) -> Option<(i8, nat)> {
        if s.len() > 0 {
            Some((s[0] as i8, 1))
        } else {
            None
        }
    }

    fn decode(r: &mut &[u8]) -> (res: Result<i8, Error>) {
        decode_i8(r)
    }
}

impl Decode for u16 {
    open spec fn spec_read(s: Seq<u8>) -> Option<(u16, nat)> {
        match spec_decode(s, 3) {
            Some((v, n)) => Some(((v % modulus_u16()) as u16, n)),
            None => None,
        }
    }

    fn decode(r: &mut &[u8]) -> (res: Result<u16, Error>) {
        decode_u16(r)
    }
}

impl Decode for u32 {
    open spec fn spec_read(s: Seq<u8>) -> Option<(u32, nat)> {
        match spec_decode(s, 5) {
            Some((v, n)) => Some(((v % modulus_u32()) as u32, n)),
            None => None,
        }
    }

    fn decode(r: &mut &[u8]) -> (res: Result<u32, Error>) {
        decode_u32(r)
    }
}

impl Decode for u64 {
    open spec fn spec_read(s: Seq<u8>) -> Option<(u64, nat)> {
        match spec_decode(s, 10) {
            Some((v, n)) => Some(((v % modulus_u64()) as u64, n)),
            None => None,
        }
    }

    fn decode(r: &mut &[u8]) -> (res: Result<u64, Error>) {
        decode_u64(r)
    }
}

impl Decode for u128 {
    open spec fn spec_read(s: Seq<u8>) -> Option<(u128, nat)> {
        match spec_decode(s, 19) {
            Some((v, n)) => Some(((v % modulus_u128()) as u128, n)),
            None => None,
        }
    }

    fn decode(r: &mut &[u8]) -> (res: Result<u128, Error>) {
        decode_u128(r)
    }
}

impl Decode for i16 {
    open spec fn spec_read(s: Seq<u8>) -> Option<(i16, nat)> {
        match spec_decode(s, 3) {
            Some((v, n)) => Some((unzigzag(v % modulus_u16()) as i16, n)),
            None => None,
        }
    }

    fn decode(r: &mut &[u8]) -> (res: Result<i16, Error>) {
        decode_i16(r)
    }
}

impl Decode for i32 {
    open spec fn spec_read(s: Seq<u8>) -> Option<(i32, nat)> {
        match spec_decode(s, 5) {
            Some((v, n)) => Some((unzigzag(v % modulus_u32()) as i32, n)),
            None => None,
        }
    }

    fn decode(r: &mut &[u8]) -> (res: Result<i32, Error>) {
        decode_i32(r)
    }
}

impl Decode for i64 {
    open spec fn spec_read(s: Seq<u8>) -> Option<(i64, nat)> {
        match spec_decode(s, 10) {
            Some((v, n)) => Some((unzigzag(v % modulus_u64()) as i64, n)),
            None => None,
        }
    }

    fn decode(r: &mut &[u8]) -> (res: Result<i64, Error>) {
        decode_i64(r)
    }
}

impl Decode for i128 {
    open spec fn spec_read(s: Seq<u8>) -> Option<(i128, nat)> {
        match spec_decode(s, 19) {
            Some((v, n)) => Some((unzigzag(v % modulus_u128()) as i128, n)),
            None => None,
        }
    }

    fn decode(r: &mut &[u8]) -> (res: Result<i128, Error>) {
        decode_i128(r)
    }
}

} // verus!
