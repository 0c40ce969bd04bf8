//! Integer en- and decoding in the style of the `bincode` format: values up to 250 take one byte,
//! larger ones a marker byte (251 to 254) followed by the value in 2, 4, 8 or 16 little-endian
//! bytes. Signed integers are first mapped to unsigned ones with the _ZigZag_ scheme.

use crate::varint::{unzigzag, zigzag};
use vstd::arithmetic::div_mod::lemma_mod_breakdown;
use vstd::prelude::*;

verus! {

// ------------------------------------------------------------------------------------------------
// Model
// ------------------------------------------------------------------------------------------------

/// `256^k`.
pub open spec fn pow256(k: nat) -> nat
    decreases k,
{
    if k == 0 {
        1
    } else {
        256 * pow256((k - 1) as nat)
    }
}

/// The lowest `n` bytes of `v`, least significant first.
pub open spec fn le_bytes(v: nat, n: nat) -> Seq<u8>
    decreases n,
{
    if n == 0 {
        seq![]
    } else {
        seq![(v % 256) as u8] + le_bytes(v / 256, (n - 1) as nat)
    }
}

/// The number that little-endian bytes stand for.
pub open spec fn le_value(s: Seq<u8>) -> nat
    decreases s.len(),
{
    if s.len() == 0 {
        0
    } else {
        s[0] as nat + 256 * le_value(s.drop_first())
    }
}

/// The bytes that the encoders write for an unsigned value.
pub open spec fn spec_encode(v: nat) -> Seq<u8> {
    if v <= 250 {
        seq![v as u8]
    } else if v <= 0xffff {
        seq![251u8] + le_bytes(v, 2)
    } else if v <= 0xffff_ffff {
        seq![252u8] + le_bytes(v, 4)
    } else if v <= 0xffff_ffff_ffff_ffff {
        seq![253u8] + le_bytes(v, 8)
    } else {
        seq![254u8] + le_bytes(v, 16)
    }
}

/// The count of value bytes that follow a marker byte.
pub open spec fn payload_len(marker: u8) -> nat {
    if marker == 251 {
        2
    } else if marker == 252 {
        4
    } else if marker == 253 {
        8
    } else {
        16
    }
}

/// The value that the bytes hold, for a decoder that accepts marker bytes up to `max_marker`;
/// `None` where such a decoder panics (an unknown marker, or too few bytes).
pub open spec fn spec_decode(s: Seq<u8>, max_marker: u8) -> Option<nat> {
    if s.len() == 0 {
        None
    } else if s[0] <= 250 {
        Some(s[0] as nat)
    } else if s[0] <= max_marker && 1 + payload_len(s[0]) <= s.len() {
        Some(le_value(s.subrange(1, 1 + payload_len(s[0]) as int)))
    } else {
        None
    }
}

// ------------------------------------------------------------------------------------------------
// Lemmas
// ------------------------------------------------------------------------------------------------

proof fn lemma_pow256_values()
    ensures
        pow256(2) == 0x1_0000,
        pow256(4) == 0x1_0000_0000,
        pow256(8) == 0x1_0000_0000_0000_0000,
        pow256(15) == 0x100_0000_0000_0000_0000_0000_0000_0000nat,
        pow256(16) == 0x1_0000_0000_0000_0000_0000_0000_0000_0000nat,
{
    reveal_with_fuel(pow256, 17);
}

proof fn lemma_pow256_pos(k: nat)
    ensures
        pow256(k) > 0,
    decreases k,
{
    if k > 0 {
        lemma_pow256_pos((k - 1) as nat);
    }
}

/// Little-endian bytes read back as the value, cut to their width.
pub proof fn lemma_le_roundtrip(v: nat, n: nat)
    ensures
        le_bytes(v, n).len() == n,
        le_value(le_bytes(v, n)) == v % pow256(n),
    decreases n,
{
    if n == 0 {
        assert(le_bytes(v, n) =~= Seq::<u8>::empty());
    } else {
        lemma_le_roundtrip(v / 256, (n - 1) as nat);
        let s = le_bytes(v, n);
        assert(s.drop_first() =~= le_bytes(v / 256, (n - 1) as nat));
        lemma_pow256_pos((n - 1) as nat);
        lemma_mod_breakdown(v as int, 256, pow256((n - 1) as nat) as int);
    }
}

/// The value of `n` little-endian bytes is below `256^n`.
proof fn lemma_le_value_bound(s: Seq<u8>)
    ensures
        le_value(s) < pow256(s.len()),
    decreases s.len(),
{
    if s.len() > 0 {
        lemma_le_value_bound(s.drop_first());
    }
}

// ------------------------------------------------------------------------------------------------
// Core routines
// ------------------------------------------------------------------------------------------------

/// Write the lowest `n` bytes of `value` in little-endian order to `buf`, starting at `start`.
fn write_le(value: u128, buf: &mut [u8], start: usize, n: usize)
    requires
        n <= 16,
        start + n <= old(buf)@.len(),
    ensures
        final(buf)@ == old(buf)@.take(start as int) + le_bytes(value as nat, n as nat) + old(
            buf,
        )@.skip(start + n),
{
    let mut v = value;
    let mut k: usize = 0;
    let len = buf.len();
    while k < n
        invariant
            k <= n <= 16,
            len == buf@.len(),
            start + n <= buf@.len(),
            buf@.len() == old(buf)@.len(),
            le_bytes(value as nat, n as nat) == buf@.subrange(start as int, start + k) + le_bytes(
                v as nat,
                (n - k) as nat,
            ),
            buf@.take(start as int) == old(buf)@.take(start as int),
            buf@.skip(start + k) == old(buf)@.skip(start + k),
        decreases n - k,
    {
        let b = (v & 0xff) as u8;
        assert(b == v % 256) by (bit_vector)
            requires
                b == (v & 0xff) as u8,
        ;
        assert(v >> 8u128 == v / 256) by (bit_vector);
        let ghost prev = buf@;
        buf[start + k] = b;
        proof {
            assert(le_bytes(v as nat, (n - k) as nat) =~= seq![b] + le_bytes(
                (v / 256) as nat,
                (n - k - 1) as nat,
            ));
            assert(buf@.subrange(start as int, start + k + 1) =~= prev.subrange(
                start as int,
                start + k,
            ) + seq![b]);
            assert(buf@.take(start as int) =~= prev.take(start as int));
            assert forall|j: int| 0 <= j < buf@.skip(start + k + 1).len() implies #[trigger] buf@.skip(
                start + k + 1,
            )[j] == old(buf)@.skip(start + k + 1)[j] by {
                assert(prev.skip(start + k)[j + 1] == old(buf)@.skip(start + k)[j + 1]);
            }
            assert(buf@.skip(start + k + 1) =~= old(buf)@.skip(start + k + 1));
        }
        v = v >> 8;
        k = k + 1;
    }
    proof {
        assert(le_bytes(v as nat, 0) =~= Seq::<u8>::empty());
        assert(buf@ =~= buf@.take(start as int) + buf@.subrange(start as int, start + n) + buf@.skip(
            start + n,
        ));
    }
}

/// Read `n` little-endian bytes from `buf`, starting at `start`.
fn read_le(buf: &[u8], start: usize, n: usize) -> (r: u128)
    requires
        n <= 16,
        start + n <= buf@.len(),
    ensures
        r == le_value(buf@.subrange(start as int, start + n)),
{
    let mut v: u128 = 0;
    let mut k: usize = n;
    let len = buf.len();
    proof {
        lemma_pow256_values();
        assert(buf@.subrange(start + n, start + n) =~= Seq::<u8>::empty());
    }
    while k > 0
        invariant
            k <= n <= 16,
            len == buf@.len(),
            start + n <= buf@.len(),
            v == le_value(buf@.subrange(start + k, start + n)),
            pow256(15) == 0x100_0000_0000_0000_0000_0000_0000_0000nat,
        decreases k,
    {
        let b = buf[start + k - 1];
        proof {
            let s = buf@.subrange(start + k, start + n);
            lemma_le_value_bound(s);
            if s.len() < 15 {
                lemma_pow256_mono(s.len(), 15);
            }
            assert(buf@.subrange(start + k - 1, start + n).drop_first() =~= s);
        }
        let ghost old_v = v;
        assert(((v << 8u128) | (b as u128)) == v * 256 + b as int) by (bit_vector)
            requires
                v < 0x100_0000_0000_0000_0000_0000_0000_0000,
        ;
        v = (v << 8) | (b as u128);
        k = k - 1;
    }
    v
}

proof fn lemma_pow256_mono(a: nat, b: nat)
    requires
        a <= b,
    ensures
        pow256(a) <= pow256(b),
    decreases b,
{
    if a < b {
        lemma_pow256_mono(a, (b - 1) as nat);
    }
}

/// Write the marker byte and payload for `value` to the start of `buf`.
fn write_value(value: u128, buf: &mut [u8])
    requires
        spec_encode(value as nat).len() <= old(buf)@.len(),
    ensures
        final(buf)@ == spec_encode(value as nat) + old(buf)@.skip(spec_encode(value as nat).len() as int),
{
    proof {
        lemma_le_roundtrip(value as nat, 2);
        lemma_le_roundtrip(value as nat, 4);
        lemma_le_roundtrip(value as nat, 8);
        lemma_le_roundtrip(value as nat, 16);
    }
    if value <= 250 {
        buf[0] = value as u8;
        proof {
            assert(buf@ =~= spec_encode(value as nat) + old(buf)@.skip(1));
        }
    } else if value <= 0xffff {
        buf[0] = 251;
        let ghost mid = buf@;
        write_le(value, buf, 1, 2);
        proof {
            assert(mid.take(1) =~= seq![251u8]);
            assert(mid.skip(3) =~= old(buf)@.skip(3));
        }
    } else if value <= 0xffff_ffff {
        buf[0] = 252;
        let ghost mid = buf@;
        write_le(value, buf, 1, 4);
        proof {
            assert(mid.take(1) =~= seq![252u8]);
            assert(mid.skip(5) =~= old(buf)@.skip(5));
        }
    } else if value <= 0xffff_ffff_ffff_ffff {
        buf[0] = 253;
        let ghost mid = buf@;
        write_le(value, buf, 1, 8);
        proof {
            assert(mid.take(1) =~= seq![253u8]);
            assert(mid.skip(9) =~= old(buf)@.skip(9));
        }
    } else {
        buf[0] = 254;
        let ghost mid = buf@;
        write_le(value, buf, 1, 16);
        proof {
            assert(mid.take(1) =~= seq![254u8]);
            assert(mid.skip(17) =~= old(buf)@.skip(17));
        }
    }
}

/// Read a value from the start of `buf`, accepting marker bytes up to `max_marker`.
fn read_value(buf: &[u8], max_marker: u8) -> (r: u128)
    requires
        251 <= max_marker <= 254,
        spec_decode(buf@, max_marker).is_some(),
    ensures
        r == spec_decode(buf@, max_marker).unwrap(),
{
    let b = buf[0];
    if b <= 250 {
        b as u128
    } else if b == 251 {
        read_le(buf, 1, 2)
    } else if b == 252 {
        read_le(buf, 1, 4)
    } else if b == 253 {
        read_le(buf, 1, 8)
    } else {
        read_le(buf, 1, 16)
    }
}

/// A value decoded with marker bytes up to `max_marker` fits the integer width that those
/// markers cover.
proof fn lemma_decode_bound(s: Seq<u8>, max_marker: u8)
    requires
        spec_decode(s, max_marker).is_some(),
    ensures
        max_marker <= 251 ==> spec_decode(s, max_marker).unwrap() <= 0xffff,
        max_marker <= 252 ==> spec_decode(s, max_marker).unwrap() <= 0xffff_ffff,
        max_marker <= 253 ==> spec_decode(s, max_marker).unwrap() <= 0xffff_ffff_ffff_ffff,
        spec_decode(s, max_marker).unwrap() < 0x1_0000_0000_0000_0000_0000_0000_0000_0000nat,
{
    lemma_pow256_values();
    if s[0] > 250 {
        lemma_le_value_bound(s.subrange(1, 1 + payload_len(s[0]) as int));
    }
}

/// Encoding then decoding gives back the value, for a decoder whose markers cover it.
proof fn lemma_value_roundtrip(v: nat, rest: Seq<u8>, max_marker: u8)
    requires
        v < 0x1_0000_0000_0000_0000_0000_0000_0000_0000nat,
        251 <= max_marker <= 254,
        max_marker == 251 ==> v <= 0xffff,
        max_marker == 252 ==> v <= 0xffff_ffff,
        max_marker == 253 ==> v <= 0xffff_ffff_ffff_ffff,
    ensures
        spec_decode(spec_encode(v) + rest, max_marker) == Some(v),
{
    lemma_pow256_values();
    let s = spec_encode(v) + rest;
    if v > 250 {
        let m = s[0];
        let p = payload_len(m);
        lemma_le_roundtrip(v, p);
        assert(s.subrange(1, 1 + p as int) =~= le_bytes(v, p));
        vstd::arithmetic::div_mod::lemma_small_mod(v, pow256(p));
    }
}


/// Encode a `u16` into the start of `buf`.
pub fn encode_u16(value: u16, buf: &mut [u8])
    requires
        spec_encode(value as nat).len() <= old(buf)@.len(),
    ensures
        final(buf)@ == spec_encode(value as nat) + old(buf)@.skip(spec_encode(value as nat).len() as int),
{
    write_value(value as u128, buf);
}

/// Encode an `i16` (in its _ZigZag_ form) into the start of `buf`.
pub fn encode_i16(value: i16, buf: &mut [u8])
    requires
        spec_encode(zigzag(value as int)).len() <= old(buf)@.len(),
    ensures
        final(buf)@ == spec_encode(zigzag(value as int)) + old(buf)@.skip(
            spec_encode(zigzag(value as int)).len() as int,
        ),
{
    assert((value < 0 ==> (!(value as u16)) as int == -(value as int) - 1) && (value >= 0 ==> (
    value as u16) as int == value as int)) by (bit_vector);
    let unsigned = if value < 0 {
        !(value as u16) * 2 + 1
    } else {
        (value as u16) * 2
    };
    encode_u16(unsigned, buf);
}

/// Decode a `u16` from the start of `buf`. The input must start with a value byte up to 250 or a
/// marker byte for a width that fits `u16`, followed by enough bytes (otherwise this panics).
pub fn decode_u16(buf: &[u8]) -> (r: u16)
    requires
        spec_decode(buf@, 251u8).is_some(),
    ensures
        r == spec_decode(buf@, 251u8).unwrap(),
{
    proof {
        lemma_decode_bound(buf@, 251u8);
    }
    read_value(buf, 251) as u16
}

/// Decode an `i16` from the start of `buf`, undoing the _ZigZag_ mapping.
pub fn decode_i16(buf: &[u8]) -> (r: i16)
    requires
        spec_decode(buf@, 251u8).is_some(),
    ensures
        r == unzigzag(spec_decode(buf@, 251u8).unwrap()),
{
    let value = decode_u16(buf);
    let half = value / 2;
    assert(half <= i16::MAX && (!half) as i16 == -(half as int) - 1) by (bit_vector)
        requires
            half == value / 2,
    ;
    if value % 2 == 0 {
        half as i16
    } else {
        (!half) as i16
    }
}

/// What `encode_u16` writes, `decode_u16` reads back.
pub proof fn law_roundtrip_u16(value: u16, rest: Seq<u8>)
    ensures
        spec_decode(spec_encode(value as nat) + rest, 251u8) == Some(value as nat),
{
    lemma_value_roundtrip(value as nat, rest, 251u8);
}

/// What `encode_i16` writes, `decode_i16` reads back.
pub proof fn law_roundtrip_i16(value: i16, rest: Seq<u8>)
    ensures
        spec_decode(spec_encode(zigzag(value as int)) + rest, 251u8) == Some(zigzag(value as int)),
        unzigzag(zigzag(value as int)) == value,
{
    lemma_value_roundtrip(zigzag(value as int), rest, 251u8);
}

/// Encode a `u32` into the start of `buf`.
pub fn encode_u32(value: u32, buf: &mut [u8])
    requires
        spec_encode(value as nat).len() <= old(buf)@.len(),
    ensures
        final(buf)@ == spec_encode(value as nat) + old(buf)@.skip(spec_encode(value as nat).len() as int),
{
    write_value(value as u128, buf);
}

/// Encode an `i32` (in its _ZigZag_ form) into the start of `buf`.
pub fn encode_i32(value: i32, buf: &mut [u8])
    requires
        spec_encode(zigzag(value as int)).len() <= old(buf)@.len(),
    ensures
        final(buf)@ == spec_encode(zigzag(value as int)) + old(buf)@.skip(
            spec_encode(zigzag(value as int)).len() as int,
        ),
{
    assert((value < 0 ==> (!(value as u32)) as int == -(value as int) - 1) && (value >= 0 ==> (
    value as u32) as int == value as int)) by (bit_vector);
    let unsigned = if value < 0 {
        !(value as u32) * 2 + 1
    } else {
        (value as u32) * 2
    };
    encode_u32(unsigned, buf);
}

/// Decode a `u32` from the start of `buf`. The input must start with a value byte up to 250 or a
/// marker byte for a width that fits `u32`, followed by enough bytes (otherwise this panics).
pub fn decode_u32(buf: &[u8]) -> (r: u32)
    requires
        spec_decode(buf@, 252u8).is_some(),
    ensures
        r == spec_decode(buf@, 252u8).unwrap(),
{
    proof {
        lemma_decode_bound(buf@, 252u8);
    }
    read_value(buf, 252) as u32
}

/// Decode an `i32` from the start of `buf`, undoing the _ZigZag_ mapping.
pub fn decode_i32(buf: &[u8]) -> (r: i32)
    requires
        spec_decode(buf@, 252u8).is_some(),
    ensures
        r == unzigzag(spec_decode(buf@, 252u8).unwrap()),
{
    let value = decode_u32(buf);
    let half = value / 2;
    assert(half <= i32::MAX && (!half) as i32 == -(half as int) - 1) by (bit_vector)
        requires
            half == value / 2,
    ;
    if value % 2 == 0 {
        half as i32
    } else {
        (!half) as i32
    }
}

/// What `encode_u32` writes, `decode_u32` reads back.
pub proof fn law_roundtrip_u32(value: u32, rest: Seq<u8>)
    ensures
        spec_decode(spec_encode(value as nat) + rest, 252u8) == Some(value as nat),
{
    lemma_value_roundtrip(value as nat, rest, 252u8);
}

/// What `encode_i32` writes, `decode_i32` reads back.
pub proof fn law_roundtrip_i32(value: i32, rest: Seq<u8>)
    ensures
        spec_decode(spec_encode(zigzag(value as int)) + rest, 252u8) == Some(zigzag(value as int)),
        unzigzag(zigzag(value as int)) == value,
{
    lemma_value_roundtrip(zigzag(value as int), rest, 252u8);
}

/// Encode a `u64` into the start of `buf`.
pub fn encode_u64(value: u64, buf: &mut [u8])
    requires
        spec_encode(value as nat).len() <= old(buf)@.len(),
    ensures
        final(buf)@ == spec_encode(value as nat) + old(buf)@.skip(spec_encode(value as nat).len() as int),
{
    write_value(value as u128, buf);
}

/// Encode an `i64` (in its _ZigZag_ form) into the start of `buf`.
pub fn encode_i64(value: i64, buf: &mut [u8])
    requires
        spec_encode(zigzag(value as int)).len() <= old(buf)@.len(),
    ensures
        final(buf)@ == spec_encode(zigzag(value as int)) + old(buf)@.skip(
            spec_encode(zigzag(value as int)).len() as int,
        ),
{
    assert((value < 0 ==> (!(value as u64)) as int == -(value as int) - 1) && (value >= 0 ==> (
    value as u64) as int == value as int)) by (bit_vector);
    let unsigned = if value < 0 {
        !(value as u64) * 2 + 1
    } else {
        (value as u64) * 2
    };
    encode_u64(unsigned, buf);
}

/// Decode a `u64` from the start of `buf`. The input must start with a value byte up to 250 or a
/// marker byte for a width that fits `u64`, followed by enough bytes (otherwise this panics).
pub fn decode_u64(buf: &[u8]) -> (r: u64)
    requires
        spec_decode(buf@, 253u8).is_some(),
    ensures
        r == spec_decode(buf@, 253u8).unwrap(),
{
    proof {
        lemma_decode_bound(buf@, 253u8);
    }
    read_value(buf, 253) as u64
}

/// Decode an `i64` from the start of `buf`, undoing the _ZigZag_ mapping.
pub fn decode_i64(buf: &[u8]) -> (r: i64)
    requires
        spec_decode(buf@, 253u8).is_some(),
    ensures
        r == unzigzag(spec_decode(buf@, 253u8).unwrap()),
{
    let value = decode_u64(buf);
    let half = value / 2;
    assert(half <= i64::MAX && (!half) as i64 == -(half as int) - 1) by (bit_vector)
        requires
            half == value / 2,
    ;
    if value % 2 == 0 {
        half as i64
    } else {
        (!half) as i64
    }
}

/// What `encode_u64` writes, `decode_u64` reads back.
pub proof fn law_roundtrip_u64(value: u64, rest: Seq<u8>)
    ensures
        spec_decode(spec_encode(value as nat) + rest, 253u8) == Some(value as nat),
{
    lemma_value_roundtrip(value as nat, rest, 253u8);
}

/// What `encode_i64` writes, `decode_i64` reads back.
pub proof fn law_roundtrip_i64(value: i64, rest: Seq<u8>)
    ensures
        spec_decode(spec_encode(zigzag(value as int)) + rest, 253u8) == Some(zigzag(value as int)),
        unzigzag(zigzag(value as int)) == value,
{
    lemma_value_roundtrip(zigzag(value as int), rest, 253u8);
}

/// Encode a `u128` into the start of `buf`.
pub fn encode_u128(value: u128, buf: &mut [u8])
    requires
        spec_encode(value as nat).len() <= old(buf)@.len(),
    ensures
        final(buf)@ == spec_encode(value as nat) + old(buf)@.skip(spec_encode(value as nat).len() as int),
{
    write_value(value as u128, buf);
}

/// Encode an `i128` (in its _ZigZag_ form) into the start of `buf`.
pub fn encode_i128(value: i128, buf: &mut [u8])
    requires
        spec_encode(zigzag(value as int)).len() <= old(buf)@.len(),
    ensures
        final(buf)@ == spec_encode(zigzag(value as int)) + old(buf)@.skip(
            spec_encode(zigzag(value as int)).len() as int,
        ),
{
    assert((value < 0 ==> (!(value as u128)) as int == -(value as int) - 1) && (value >= 0 ==> (
    value as u128) as int == value as int)) by (bit_vector);
    let unsigned = if value < 0 {
        !(value as u128) * 2 + 1
    } else {
        (value as u128) * 2
    };
    encode_u128(unsigned, buf);
}

/// Decode a `u128` from the start of `buf`. The input must start with a value byte up to 250 or a
/// marker byte for a width that fits `u128`, followed by enough bytes (otherwise this panics).
pub fn decode_u128(buf: &[u8]) -> (r: u128)
    requires
        spec_decode(buf@, 254u8).is_some(),
    ensures
        r == spec_decode(buf@, 254u8).unwrap(),
{
    proof {
        lemma_decode_bound(buf@, 254u8);
    }
    read_value(buf, 254) as u128
}

/// Decode an `i128` from the start of `buf`, undoing the _ZigZag_ mapping.
pub fn decode_i128(buf: &[u8]) -> (r: i128)
    requires
        spec_decode(buf@, 254u8).is_some(),
    ensures
        r == unzigzag(spec_decode(buf@, 254u8).unwrap()),
{
    let value = decode_u128(buf);
    let half = value / 2;
    assert(half <= i128::MAX && (!half) as i128 == -(half as int) - 1) by (bit_vector)
        requires
            half == value / 2,
    ;
    if value % 2 == 0 {
        half as i128
    } else {
        (!half) as i128
    }
}

/// What `encode_u128` writes, `decode_u128` reads back.
pub proof fn law_roundtrip_u128(value: u128, rest: Seq<u8>)
    ensures
        spec_decode(spec_encode(value as nat) + rest, 254u8) == Some(value as nat),
{
    lemma_value_roundtrip(value as nat, rest, 254u8);
}

/// What `encode_i128` writes, `decode_i128` reads back.
pub proof fn law_roundtrip_i128(value: i128, rest: Seq<u8>)
    ensures
        spec_decode(spec_encode(zigzag(value as int)) + rest, 254u8) == Some(zigzag(value as int)),
        unzigzag(zigzag(value as int)) == value,
{
    lemma_value_roundtrip(zigzag(value as int), rest, 254u8);
}

} // verus!
