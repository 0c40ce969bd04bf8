//! Runtime support for the Mabo encoding format, together with the schema model and validation
//! rules of its compiler.
//!
//! - [`varint`]: variable-length integers.
//! - [`buf`]: en- and decoding of every Mabo data type on in-memory buffers.
//! - [`FieldId`], [`VariantId`], [`NonZero`]: identifiers and containers used by generated code.

pub mod benches;
pub mod buf;
pub mod cli;
pub mod codegen;
pub mod compiler;
pub mod doc;
pub mod go;
pub mod parser;
pub mod varint;

use vstd::prelude::*;

verus! {

/// Identifier for a single struct or enum variant field.
///
/// This type contains the actual identifier, plus additional information that is encoded together
/// with it. It allows for convenient en- and decoding of the information.
#[derive(Clone, Copy, Debug, PartialEq, Eq)]
pub struct FieldId {
    /// The real decoded field identifier.
    pub value: u32,
    /// Encoding information for field skipping.
    pub encoding: FieldEncoding,
}

/// Minimum detail about how a field is encoded, which allows to skip over a field if it's unknown.
#[derive(Clone, Copy, Debug, PartialEq, Eq)]
pub enum FieldEncoding {
    /// Variable-length integer.
    Varint,
    /// Arbitrary content prefixed with its byte length.
    LengthPrefixed,
    /// 1-byte fixed width data.
    Fixed1,
    /// 4-byte fixed width data.
    Fixed4,
    /// 8-byte fixed width data.
    Fixed8,
}

/// The raw number (0 to 4) of a field encoding, as stored in the lowest 3 bits of a field
/// identifier.
pub open spec fn encoding_code(encoding: FieldEncoding) -> u32 {
    match encoding {
        FieldEncoding::Varint => 0,
        FieldEncoding::LengthPrefixed => 1,
        FieldEncoding::Fixed1 => 2,
        FieldEncoding::Fixed4 => 3,
        FieldEncoding::Fixed8 => 4,
    }
}

/// The field encoding that a raw field identifier carries in its lowest 3 bits, if any.
pub open spec fn spec_encoding_from_u32(value: u32) -> Option<FieldEncoding> {
    let code = value % 8;
    if code == 0 {
        Some(FieldEncoding::Varint)
    } else if code == 1 {
        Some(FieldEncoding::LengthPrefixed)
    } else if code == 2 {
        Some(FieldEncoding::Fixed1)
    } else if code == 3 {
        Some(FieldEncoding::Fixed4)
    } else if code == 4 {
        Some(FieldEncoding::Fixed8)
    } else {
        None
    }
}

/// The raw `u32` of a field identifier: the value shifted up by 3 bits (bits shifted out of the
/// `u32` are lost), with the encoding in the lowest 3 bits.
pub open spec fn spec_field_id_u32(id: FieldId) -> u32 {
    ((id.value as nat * 8) % 0x1_0000_0000 + encoding_code(id.encoding) as nat) as u32
}

impl FieldEncoding {
    /// Try to convert the raw field identifier (which carries the encoding information) into a
    /// known field encoding.
    pub fn from_u32(value: u32) -> (r: Option<Self>)
        ensures
            r == spec_encoding_from_u32(value),
    {
        let code = value & 0b111;
        assert(code == value % 8) by (bit_vector)
            requires
                code == value & 0b111,
        ;
        match code {
            0 => Some(Self::Varint),
            1 => Some(Self::LengthPrefixed),
            2 => Some(Self::Fixed1),
            3 => Some(Self::Fixed4),
            4 => Some(Self::Fixed8),
            _ => None,
        }
    }

    /// The raw number of this encoding (what `as u32` gives for the `repr(u32)` enum).
    pub fn code(self) -> (r: u32)
        ensures
            r == encoding_code(self),
    {
        match self {
            Self::Varint => 0,
            Self::LengthPrefixed => 1,
            Self::Fixed1 => 2,
            Self::Fixed4 => 3,
            Self::Fixed8 => 4,
        }
    }
}

impl FieldId {
    /// Create a new instance of a field identifier.
    pub fn new(value: u32, encoding: FieldEncoding) -> (r: Self)
        ensures
            r == (FieldId { value, encoding }),
    {
        Self { value, encoding }
    }

    /// Convert from a raw `u32` into the field identifier.
    ///
    /// This returns `None` if the raw value contains an unknown field encoding.
    pub fn from_u32(value: u32) -> (r: Option<Self>)
        ensures
            match spec_encoding_from_u32(value) {
                Some(encoding) => r == Some(FieldId { value: value / 8, encoding }),
                None => r.is_none(),
            },
    {
        let encoding = match FieldEncoding::from_u32(value) {
            Some(encoding) => encoding,
            None => return None,
        };
        let shifted = value >> 3;
        assert(shifted == value / 8) by (bit_vector)
            requires
                shifted == value >> 3,
        ;
        Some(Self { value: shifted, encoding })
    }

    /// Convert the field identifier into a raw `u32`, which contains all its information.
    pub fn into_u32(self) -> (r: u32)
        ensures
            r == spec_field_id_u32(self),
    {
        let code = self.encoding.code();
        let value = self.value;
        let r = value << 3 | code;
        assert(r == ((value as nat * 8) % 0x1_0000_0000 + code as nat) as u32) by (bit_vector)
            requires
                r == value << 3 | code,
                code < 8,
        ;
        r
    }
}

/// A field identifier survives the trip through its raw `u32`, as long as its value fits in the
/// 29 bits that the raw form has room for.
pub proof fn law_field_id_roundtrip(id: FieldId)
    requires
        id.value < 0x2000_0000,
    ensures
        spec_encoding_from_u32(spec_field_id_u32(id)) == Some(id.encoding),
        spec_field_id_u32(id) / 8 == id.value,
{
    let raw = spec_field_id_u32(id);
    assert((id.value as nat * 8) % 0x1_0000_0000 == id.value as nat * 8);
}

/// A raw `u32` with a known encoding survives the trip through a field identifier.
pub proof fn law_field_id_raw_roundtrip(raw: u32)
    requires
        spec_encoding_from_u32(raw).is_some(),
    ensures
        spec_field_id_u32(FieldId { value: raw / 8, encoding: spec_encoding_from_u32(raw).unwrap() })
            == raw,
{
}

/// Identifier for a single enum variant.
///
/// Currently, this is identical to the raw value it contains, but might be extended to encode
/// additional information like the [`FieldId`] in the future.
#[derive(Clone, Copy, Debug, PartialEq, Eq)]
pub struct VariantId {
    /// The real decoded variant identifier.
    pub value: u32,
}

impl VariantId {
    /// Create a new instance of a variant identifier.
    pub fn new(value: u32) -> (r: Self)
        ensures
            r.value == value,
    {
        Self { value }
    }
}

/// A container that guarantees that the contained type is not zero or not empty.
///
/// What's exactly meant by _non-zero_ depends on the type itself. Collections define this as not
/// being empty, meaning to always contain at least one element. Similarly for strings, it means
/// they always contain at least one character.
#[derive(Clone, Debug, PartialEq)]
pub struct NonZero<T>(T);

impl<T> NonZero<T> {
    /// The contained value.
    pub closed spec fn inner(&self) -> T {
        self.0
    }

    /// Get a reference to the contained value.
    pub fn get(&self) -> (r: &T)
        ensures
            *r == self.inner(),
    {
        &self.0
    }

    /// Extract the inner type out of the non-zero container, but lose the guarantee of not being
    /// zero.
    pub fn into_inner(self) -> (r: T)
        ensures
            r == self.inner(),
    {
        self.0
    }
}

impl NonZero<String> {
    /// Try to create a new non-zero string, which succeeds if the given string is not empty.
    /// Otherwise `None` is returned.
    pub fn new(value: String) -> (r: Option<Self>)
        ensures
            match r {
                Some(nz) => value@.len() > 0 && nz.inner() == value,
                None => value@.len() == 0,
            },
    {
        if value.as_str().is_empty() {
            None
        } else {
            Some(Self(value))
        }
    }
}

impl<T> NonZero<Vec<T>> {
    /// Try to create a new non-zero vector, which succeeds if the given vector contains in fact
    /// some elements. Otherwise `None` is returned.
    pub fn new(value: Vec<T>) -> (r: Option<Self>)
        ensures
            match r {
                Some(nz) => value@.len() > 0 && nz.inner() == value,
                None => value@.len() == 0,
            },
    {
        if value.is_empty() {
            None
        } else {
            Some(Self(value))
        }
    }
}

impl<K, V> NonZero<std::collections::HashMap<K, V>> {
    /// Try to create a new non-zero hash map, which succeeds if the given map contains in fact
    /// some entries. Otherwise `None` is returned.
    pub fn new(value: std::collections::HashMap<K, V>) -> (r: Option<Self>)
        ensures
            match r {
                Some(nz) => !value@.is_empty() && nz.inner() == value,
                None => value@.is_empty(),
            },
    {
        if value.is_empty() {
            None
        } else {
            Some(Self(value))
        }
    }
}

impl<T> NonZero<std::collections::HashSet<T>> {
    /// Try to create a new non-zero hash set, which succeeds if the given set contains in fact
    /// some elements. Otherwise `None` is returned.
    pub fn new(value: std::collections::HashSet<T>) -> (r: Option<Self>)
        ensures
            match r {
                Some(nz) => !value@.is_empty() && nz.inner() == value,
                None => value@.is_empty(),
            },
    {
        if value.is_empty() {
            None
        } else {
            Some(Self(value))
        }
    }
}

/// `bytes::Bytes`, a shared, immutable byte buffer; what it holds is named by [`bytes_content`].
#[verifier::external_type_specification]
#[verifier::external_body]
pub struct ExBytes(bytes::Bytes);

/// The bytes that a `bytes::Bytes` buffer holds, in order.
pub uninterp spec fn bytes_content(b: bytes::Bytes) -> Seq<u8>;

/// `Bytes::is_empty`: whether the buffer holds no bytes.
#[verifier::external_body]
pub(crate) fn bytes_is_empty(b: &bytes::Bytes) -> (r: bool)
    ensures
        r == (bytes_content(*b).len() == 0),
{
    b.is_empty()
}

/// `Deref` of `Bytes` to `[u8]`: the bytes the buffer holds, as a slice.
#[verifier::external_body]
pub(crate) fn bytes_as_slice(b: &bytes::Bytes) -> (r: &[u8])
    ensures
        r@ == bytes_content(*b),
{
    b
}

/// The count of bytes that a `bytes::Bytes` buffer holds.
pub fn bytes_len(b: &bytes::Bytes) -> (r: usize)
    ensures
        r == bytes_content(*b).len(),
{
    bytes_as_slice(b).len()
}

impl NonZero<bytes::Bytes> {
    /// Try to create a new non-zero byte buffer, which succeeds if the given buffer holds in fact
    /// some bytes. Otherwise `None` is returned.
    pub fn new(value: bytes::Bytes) -> (r: Option<Self>)
        ensures
            match r {
                Some(nz) => bytes_content(value).len() > 0 && nz.inner() == value,
                None => bytes_content(value).len() == 0,
            },
    {
        if bytes_is_empty(&value) {
            None
        } else {
            Some(Self(value))
        }
    }
}

} // verus!
