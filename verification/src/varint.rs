//! Encoding and decoding for variable integers (_Varint_).
//!
//! A _Varint_ stores an unsigned integer in little-endian groups of 7 bits, one group per byte.
//! The highest bit of each byte is set when more bytes follow, and cleared in the final byte.
//! Signed integers are first mapped to unsigned ones with the _ZigZag_ scheme.

use vstd::arithmetic::div_mod::{
    lemma_add_mod_noop_right, lemma_mod_mod, lemma_mul_mod_noop_right, lemma_small_mod,
};
use vstd::prelude::*;

pub mod big;

pub use big::{
    decode_ibig, decode_ubig, encode_ibig, encode_ubig, size_ibig, size_ubig, BigInteger, BigNat,
};

verus! {

// ------------------------------------------------------------------------------------------------
// Mathematical model
// ------------------------------------------------------------------------------------------------

/// `2^128`, the number of values of a `u128`.
pub open spec fn modulus_u128() -> nat {
    0x1_0000_0000_0000_0000_0000_0000_0000_0000nat
}

/// `128^k`: the first value that needs more than `k` groups of 7 bits.
pub open spec fn pow128(k: nat) -> nat
    decreases k,
{
    if k == 0 {
        1
    } else {
        128 * pow128((k - 1) as nat)
    }
}

/// The _Varint_ bytes of a natural number: its 7-bit groups from the least significant one on,
/// with the continuation flag (`0x80`) set on every byte but the last.
pub open spec fn spec_encode(v: nat) -> Seq<u8>
    decreases v,
{
    if v < 128 {
        seq![v as u8]
    } else {
        seq![(v % 128 + 128) as u8] + spec_encode(v / 128)
    }
}

/// The number that the 7-bit groups of the given bytes stand for (the continuation flags are
/// ignored), reading the groups in little-endian order.
pub open spec fn groups_value(s: Seq<u8>) -> nat
    decreases s.len(),
{
    if s.len() == 0 {
        0
    } else {
        (s[0] % 128) as nat + 128 * groups_value(s.drop_first())
    }
}

/// Length of the _Varint_ at the start of the bytes: the position after the first byte that has
/// its continuation flag cleared, or `None` if no byte ends the integer.
pub open spec fn varint_end(s: Seq<u8>) -> Option<nat>
    decreases s.len(),
{
    if s.len() == 0 {
        None
    } else if s[0] < 128 {
        Some(1)
    } else {
        match varint_end(s.drop_first()) {
            Some(k) => Some(k + 1),
            None => None,
        }
    }
}

/// Decoding of a _Varint_ that may span at most `max` bytes: the value of its groups (not yet
/// reduced to any integer width) and the count of bytes it occupies.
pub open spec fn spec_decode(s: Seq<u8>, max: nat) -> Option<(nat, nat)> {
    match varint_end(s) {
        Some(n) => if n <= max {
            Some((groups_value(s.take(n as int)), n))
        } else {
            None
        },
        None => None,
    }
}

/// The _ZigZag_ mapping from signed to unsigned numbers: `0, -1, 1, -2, 2, ...` become
/// `0, 1, 2, 3, 4, ...`.
pub open spec fn zigzag(v: int) -> nat {
    if v >= 0 {
        (2 * v) as nat
    } else {
        (-2 * v - 1) as nat
    }
}

/// The inverse of [`zigzag`].
pub open spec fn unzigzag(u: nat) -> int {
    if u % 2 == 0 {
        (u / 2) as int
    } else {
        -((u / 2) as int) - 1
    }
}

// ------------------------------------------------------------------------------------------------
// Lemmas about the model
// ------------------------------------------------------------------------------------------------

/// A value below `128^k` (with `k >= 1`) needs at most `k` bytes.
pub proof fn lemma_encode_len_bound(v: nat, k: nat)
    requires
        k >= 1,
        v < pow128(k),
    ensures
        spec_encode(v).len() <= k,
        spec_encode(v).len() >= 1,
    decreases v,
{
    if v >= 128 {
        assert(k >= 2) by {
            if k == 1 {
                assert(pow128(1) == 128) by {
                    reveal_with_fuel(pow128, 2);
                }
            }
        }
        assert(v / 128 < pow128((k - 1) as nat));
        lemma_encode_len_bound(v / 128, (k - 1) as nat);
    }
}

/// The encoding of a value below `2^128` takes at most 19 bytes.
pub proof fn lemma_encode_len_u128(v: nat)
    requires
        v < modulus_u128(),
    ensures
        1 <= spec_encode(v).len() <= 19,
{
    assert(pow128(0) == 1nat);
    assert(pow128(1) == 128nat);
    assert(pow128(2) == 16384nat);
    assert(pow128(3) == 2097152nat);
    assert(pow128(4) == 268435456nat);
    assert(pow128(5) == 34359738368nat);
    assert(pow128(6) == 4398046511104nat);
    assert(pow128(7) == 562949953421312nat);
    assert(pow128(8) == 72057594037927936nat);
    assert(pow128(9) == 9223372036854775808nat);
    assert(pow128(10) == 1180591620717411303424nat);
    assert(pow128(11) == 151115727451828646838272nat);
    assert(pow128(12) == 19342813113834066795298816nat);
    assert(pow128(13) == 2475880078570760549798248448nat);
    assert(pow128(14) == 316912650057057350374175801344nat);
    assert(pow128(15) == 40564819207303340847894502572032nat);
    assert(pow128(16) == 5192296858534827628530496329220096nat);
    assert(pow128(17) == 664613997892457936451903530140172288nat);
    assert(pow128(18) == 85070591730234615865843651857942052864nat);
    assert(pow128(19) == 10889035741470030830827987437816582766592nat);
    lemma_encode_len_bound(v, 19);
}

/// Characterization of [`varint_end`]: the varint ends after byte `n` exactly when that byte is
/// the first one without the continuation flag.
pub proof fn lemma_varint_end_iff(s: Seq<u8>, n: nat)
    ensures
        varint_end(s) == Some(n) <==> (0 < n <= s.len() && s[n - 1] < 128 && forall|j: int|
            0 <= j < n - 1 ==> s[j] >= 128),
    decreases s.len(),
{
    if s.len() > 0 && s[0] >= 128 {
        if n > 0 {
            lemma_varint_end_iff(s.drop_first(), (n - 1) as nat);
            if 0 < n <= s.len() && s[n - 1] < 128 && (forall|j: int| 0 <= j < n - 1 ==> s[j] >= 128) {
                assert forall|j: int| 0 <= j < n - 2 implies s.drop_first()[j] >= 128 by {
                    assert(s.drop_first()[j] == s[j + 1]);
                }
            }
            if varint_end(s) == Some(n) {
                assert forall|j: int| 0 <= j < n - 1 implies s[j] >= 128 by {
                    if j > 0 {
                        assert(s[j] == s.drop_first()[j - 1]);
                    }
                }
            }
        }
    } else if s.len() > 0 && s[0] < 128 {
        if n > 1 && s[n - 1] < 128 && (forall|j: int| 0 <= j < n - 1 ==> s[j] >= 128) {
            assert(s[0] >= 128);
        }
    }
}

/// No byte of a sequence where every byte carries the continuation flag ends a varint.
pub proof fn lemma_varint_end_none(s: Seq<u8>)
    requires
        forall|j: int| 0 <= j < s.len() ==> s[j] >= 128,
    ensures
        varint_end(s).is_none(),
    decreases s.len(),
{
    if s.len() > 0 {
        assert forall|j: int| 0 <= j < s.drop_first().len() implies s.drop_first()[j] >= 128 by {
            assert(s.drop_first()[j] == s[j + 1]);
        }
        lemma_varint_end_none(s.drop_first());
    }
}

/// The end of a varint only depends on the bytes up to that end.
pub proof fn lemma_varint_end_prefix(s: Seq<u8>, rest: Seq<u8>)
    requires
        varint_end(s).is_some(),
    ensures
        varint_end(s + rest) == varint_end(s),
        (s + rest).take(varint_end(s).unwrap() as int) == s.take(varint_end(s).unwrap() as int),
    decreases s.len(),
{
    let n = varint_end(s).unwrap();
    lemma_varint_end_iff(s, n);
    lemma_varint_end_iff(s + rest, n);
    assert((s + rest).take(n as int) =~= s.take(n as int));
}

/// The encoding of `v` is a single varint covering all its bytes, whose groups stand for `v`.
pub proof fn lemma_encode_shape(v: nat)
    ensures
        varint_end(spec_encode(v)) == Some(spec_encode(v).len()),
        groups_value(spec_encode(v)) == v,
        spec_encode(v).len() >= 1,
    decreases v,
{
    let s = spec_encode(v);
    if v < 128 {
        assert(s.drop_first() =~= Seq::<u8>::empty());
        assert(groups_value(s.drop_first()) == 0);
        assert((v as u8) % 128 == v);
    } else {
        lemma_encode_shape(v / 128);
        let b = (v % 128 + 128) as u8;
        assert(s.drop_first() =~= spec_encode(v / 128));
        assert(s[0] == b);
        assert(b % 128 == v % 128);
        vstd::arithmetic::div_mod::lemma_fundamental_div_mod(v as int, 128);
    }
}

/// Decoding the encoding of `v` (followed by any other bytes) gives back `v` and the encoding's
/// length, as long as the encoding fits in `max` bytes.
pub proof fn lemma_decode_encode(v: nat, rest: Seq<u8>, max: nat)
    requires
        spec_encode(v).len() <= max,
    ensures
        spec_decode(spec_encode(v) + rest, max) == Some((v, spec_encode(v).len())),
{
    let s = spec_encode(v);
    lemma_encode_shape(v);
    lemma_varint_end_prefix(s, rest);
    assert(s.take(s.len() as int) =~= s);
}

/// A decoded varint occupies at least one and at most `max` of the available bytes.
pub proof fn lemma_decode_len(s: Seq<u8>, max: nat)
    ensures
        spec_decode(s, max) matches Some((v, n)) ==> 1 <= n <= s.len() && n <= max,
{
    if let Some(n) = varint_end(s) {
        lemma_varint_end_iff(s, n);
    }
}

/// The groups of a subrange split off their first byte.
proof fn lemma_groups_step(s: Seq<u8>, j: int, n: int)
    requires
        0 <= j < n <= s.len(),
    ensures
        groups_value(s.subrange(j, n)) == (s[j] % 128) as nat + 128 * groups_value(
            s.subrange(j + 1, n),
        ),
{
    assert(s.subrange(j, n).drop_first() =~= s.subrange(j + 1, n));
}

/// One step of reading the groups from the most significant end, in `u128` arithmetic.
proof fn lemma_horner_step(v: u128, t: u128, g: nat)
    requires
        t < 128,
        v as nat == g % modulus_u128(),
    ensures
        ((v << 7u128) | t) as nat == (t as nat + 128 * g) % modulus_u128(),
{
    assert(((v << 7u128) | t) as int == ((v as int) * 128 + t as int)
        % 0x1_0000_0000_0000_0000_0000_0000_0000_0000int) by (bit_vector)
        requires
            t < 128,
    ;
    let m = modulus_u128() as int;
    lemma_mul_mod_noop_right(128, g as int, m);
    lemma_add_mod_noop_right(t as int, 128 * (g as int), m);
    lemma_add_mod_noop_right(t as int, 128 * (g as int % m), m);
}

// ------------------------------------------------------------------------------------------------
// Core routines (shared by all integer widths)
// ------------------------------------------------------------------------------------------------

/// Write the _Varint_ bytes of `value` to the start of `buf`, returning how many were written.
fn write_varint(value: u128, buf: &mut [u8]) -> (n: usize)
    requires
        spec_encode(value as nat).len() <= old(buf)@.len(),
    ensures
        n == spec_encode(value as nat).len(),
        final(buf)@.len() == old(buf)@.len(),
        final(buf)@.take(n as int) == spec_encode(value as nat),
        final(buf)@.skip(n as int) == old(buf)@.skip(n as int),
{
    let mut v = value;
    let mut i: usize = 0;
    loop
        invariant
            buf@.len() == old(buf)@.len(),
            i + spec_encode(v as nat).len() <= buf@.len(),
            spec_encode(value as nat) == buf@.take(i as int) + spec_encode(v as nat),
            buf@.skip(i as int) == old(buf)@.skip(i as int),
        decreases buf@.len() - i,
    {
        proof {
            lemma_encode_shape(v as nat);
        }
        let b = (v & 0xff) as u8;
        if v < 128 {
            assert(b == v) by (bit_vector)
                requires
                    b == (v & 0xff) as u8,
                    v < 128,
            ;
            let ghost prev = buf@;
            buf[i] = b;
            proof {
                assert(spec_encode(v as nat) =~= seq![v as u8]);
                assert(buf@.take(i + 1) =~= prev.take(i as int) + seq![b]);
                assert(buf@.skip(i + 1) =~= prev.skip(i + 1));
                assert(prev.skip(i + 1) =~= old(buf)@.skip(i + 1)) by {
                    assert forall|k: int| 0 <= k < prev.len() - (i + 1) implies #[trigger] prev.skip(i + 1)[k]
                        == old(buf)@.skip(i + 1)[k] by {
                        assert(prev.skip(i as int)[k + 1] == old(buf)@.skip(i as int)[k + 1]);
                    }
                }
            }
            return i + 1;
        }
        let c = b | 0x80;
        assert(c == (v % 128 + 128) as u8) by (bit_vector)
            requires
                b == (v & 0xff) as u8,
                c == b | 0x80,
        ;
        assert(v >> 7u128 == v / 128) by (bit_vector);
        let ghost prev = buf@;
        buf[i] = c;
        proof {
            assert(spec_encode(v as nat) =~= seq![c] + spec_encode((v / 128) as nat));
            assert(buf@.take(i + 1) =~= prev.take(i as int) + seq![c]);
            assert forall|k: int| 0 <= k < buf@.skip(i + 1).len() implies #[trigger] buf@.skip(i + 1)[k]
                == old(buf)@.skip(i + 1)[k] by {
                assert(prev.skip(i as int)[k + 1] == old(buf)@.skip(i as int)[k + 1]);
            }
            assert(buf@.skip(i + 1) =~= old(buf)@.skip(i + 1));
        }
        v = v >> 7;
        i = i + 1;
    }
}

/// Decode a _Varint_ of at most `max` bytes from the start of `buf` as a `u128` (groups beyond
/// 128 bits are cut off).
pub(crate) fn read_varint(buf: &[u8], max: usize) -> (res: Result<(u128, usize), DecodeIntError>)
    ensures
        match spec_decode(buf@, max as nat) {
            Some((v, n)) => res == Ok::<(u128, usize), DecodeIntError>(
                ((v % modulus_u128()) as u128, n as usize),
            ),
            None => res.is_err(),
        },
{
    let mut i: usize = 0;
    let mut n: usize = 0;
    while i < buf.len() && i < max
        invariant_except_break
            i <= buf@.len(),
            forall|j: int| 0 <= j < i ==> buf@[j] >= 128,
            n == 0,
        ensures
            n == 0 ==> forall|j: int| 0 <= j < i ==> buf@[j] >= 128,
            n == 0 ==> i >= buf@.len() || i >= max,
            n == 0 ==> i <= buf@.len(),
            n != 0 ==> varint_end(buf@) == Some(n as nat) && n <= max && n <= buf@.len(),
        decreases buf@.len() - i,
    {
        if buf[i] & 0x80 == 0 {
            let b = buf[i];
            assert(b & 0x80 == 0 <==> b < 128) by (bit_vector);
            proof {
                lemma_varint_end_iff(buf@, (i + 1) as nat);
            }
            n = i + 1;
            break;
        }
        let b = buf[i];
        assert(b & 0x80 != 0 <==> b >= 128) by (bit_vector);
        i = i + 1;
    }
    if n == 0 {
        proof {
            if i >= buf@.len() {
                lemma_varint_end_none(buf@);
            } else {
                match varint_end(buf@) {
                    Some(e) => {
                        lemma_varint_end_iff(buf@, e);
                        if e <= max {
                            assert(buf@[e - 1] >= 128);
                        }
                    },
                    None => {},
                }
            }
        }
        return Err(DecodeIntError);
    }
    let ghost s = buf@.take(n as int);
    let mut value: u128 = 0;
    let mut j: usize = n;
    proof {
        assert(buf@.subrange(n as int, n as int) =~= Seq::<u8>::empty());
    }
    while j > 0
        invariant
            j <= n <= buf@.len(),
            value as nat == groups_value(buf@.subrange(j as int, n as int)) % modulus_u128(),
        decreases j,
    {
        let b = buf[j - 1];
        let t = (b & 0x7f) as u128;
        assert(t == (b % 128) as u128) by (bit_vector)
            requires
                t == (b & 0x7f) as u128,
        ;
        proof {
            lemma_groups_step(buf@, j - 1, n as int);
            lemma_horner_step(value, t, groups_value(buf@.subrange(j as int, n as int)));
        }
        value = (value << 7) | t;
        j = j - 1;
    }
    proof {
        assert(buf@.subrange(0, n as int) =~= buf@.take(n as int));
    }
    Ok((value, n))
}

/// Count the _Varint_ bytes of `value`.
fn varint_size(value: u128) -> (n: usize)
    ensures
        n == spec_encode(value as nat).len(),
        1 <= n <= 19,
{
    proof {
        lemma_encode_len_u128(value as nat);
    }
    let mut v = value;
    let mut n: usize = 1;
    while v >= 128
        invariant
            n + spec_encode(v as nat).len() == spec_encode(value as nat).len() + 1,
            spec_encode(value as nat).len() <= 19,
            spec_encode(v as nat).len() >= 1,
        decreases v,
    {
        assert(v >> 7u128 == v / 128) by (bit_vector);
        proof {
            assert(spec_encode(v as nat) =~= seq![(v % 128 + 128) as u8] + spec_encode(
                (v / 128) as nat,
            ));
            lemma_encode_shape((v / 128) as nat);
        }
        v = v >> 7;
        n = n + 1;
    }
    proof {
        assert(spec_encode(v as nat) =~= seq![v as u8]);
    }
    n
}

// ------------------------------------------------------------------------------------------------
// Public API
// ------------------------------------------------------------------------------------------------

/// Error that can happen when trying to decode a _Varint_ back into a regular integer: the input
/// was lacking a final marker for the end of the integer data.
#[derive(Debug, Clone, Copy, PartialEq, Eq)]
pub struct DecodeIntError;

impl DecodeIntError {
    /// Human readable description of the error.
    pub fn message(&self) -> (s: &'static str)
        ensures
            s@ == "input was lacking a final marker for the end of the integer data"@,
    {
        "input was lacking a final marker for the end of the integer data"
    }
}

/// Calculate the maximum amount of bytes that an integer of type `T` might require to be encoded
/// as _Varint_ (its bit count divided by 7, rounded up).
pub fn max_size<T>() -> (r: usize)
    requires
        vstd::layout::size_of::<T>() * 8 + 6 <= usize::MAX,
    ensures
        r == (vstd::layout::size_of::<T>() * 8 + 6) / 7,
{
    (core::mem::size_of::<T>() * 8 + 6) / 7
}

/// Use the _ZigZag_ scheme to encode an `i16` as `u16`.
pub fn zigzag_encode_i16(value: i16) -> (r: u16)
    ensures
        r == zigzag(value as int),
{
    let r = ((value << 1u32) ^ (value >> 15u32)) as u16;
    assert(r == (if value >= 0 { 2 * value } else { -2 * value - 1 }) as u16) by (bit_vector)
        requires
            r == ((value << 1u32) ^ (value >> 15u32)) as u16,
    ;
    r
}

/// Convert a _ZigZag_ encoded `u16` back to its original `i16`.
pub fn zigzag_decode_i16(value: u16) -> (r: i16)
    ensures
        r == unzigzag(value as nat),
{
    let half = value >> 1u32;
    let low = value & 0b1;
    assert(half <= i16::MAX && low <= 1 && ((half as i16) ^ (-(low as i16)) as i16) == (if value % 2
        == 0 {
        (value / 2) as int
    } else {
        -((value / 2) as int) - 1
    })) by (bit_vector)
        requires
            half == value >> 1u32,
            low == value & 0b1,
    ;
    let h = half as i16;
    let m: i16 = -(low as i16);
    let r = h ^ m;
    r
}

/// Use the _ZigZag_ scheme to encode an `i32` as `u32`.
pub fn zigzag_encode_i32(value: i32) -> (r: u32)
    ensures
        r == zigzag(value as int),
{
    let r = ((value << 1u32) ^ (value >> 31u32)) as u32;
    assert(r == (if value >= 0 { 2 * value } else { -2 * value - 1 }) as u32) by (bit_vector)
        requires
            r == ((value << 1u32) ^ (value >> 31u32)) as u32,
    ;
    r
}

/// Convert a _ZigZag_ encoded `u32` back to its original `i32`.
pub fn zigzag_decode_i32(value: u32) -> (r: i32)
    ensures
        r == unzigzag(value as nat),
{
    let half = value >> 1u32;
    let low = value & 0b1;
    assert(half <= i32::MAX && low <= 1 && ((half as i32) ^ (-(low as i32)) as i32) == (if value % 2
        == 0 {
        (value / 2) as int
    } else {
        -((value / 2) as int) - 1
    })) by (bit_vector)
        requires
            half == value >> 1u32,
            low == value & 0b1,
    ;
    let h = half as i32;
    let m: i32 = -(low as i32);
    let r = h ^ m;
    r
}

/// Use the _ZigZag_ scheme to encode an `i64` as `u64`.
pub fn zigzag_encode_i64(value: i64) -> (r: u64)
    ensures
        r == zigzag(value as int),
{
    let r = ((value << 1u32) ^ (value >> 63u32)) as u64;
    assert(r == (if value >= 0 { 2 * value } else { -2 * value - 1 }) as u64) by (bit_vector)
        requires
            r == ((value << 1u32) ^ (value >> 63u32)) as u64,
    ;
    r
}

/// Convert a _ZigZag_ encoded `u64` back to its original `i64`.
pub fn zigzag_decode_i64(value: u64) -> (r: i64)
    ensures
        r == unzigzag(value as nat),
{
    let half = value >> 1u32;
    let low = value & 0b1;
    assert(half <= i64::MAX && low <= 1 && ((half as i64) ^ (-(low as i64)) as i64) == (if value % 2
        == 0 {
        (value / 2) as int
    } else {
        -((value / 2) as int) - 1
    })) by (bit_vector)
        requires
            half == value >> 1u32,
            low == value & 0b1,
    ;
    let h = half as i64;
    let m: i64 = -(low as i64);
    let r = h ^ m;
    r
}

/// Use the _ZigZag_ scheme to encode an `i128` as `u128`.
pub fn zigzag_encode_i128(value: i128) -> (r: u128)
    ensures
        r == zigzag(value as int),
{
    let r = ((value << 1u32) ^ (value >> 127u32)) as u128;
    assert(r == (if value >= 0 { 2 * value } else { -2 * value - 1 }) as u128) by (bit_vector)
        requires
            r == ((value << 1u32) ^ (value >> 127u32)) as u128,
    ;
    r
}

/// Convert a _ZigZag_ encoded `u128` back to its original `i128`.
pub fn zigzag_decode_i128(value: u128) -> (r: i128)
    ensures
        r == unzigzag(value as nat),
{
    let half = value >> 1u32;
    let low = value & 0b1;
    assert(half <= i128::MAX && low <= 1 && ((half as i128) ^ (-(low as i128)) as i128) == (if value % 2
        == 0 {
        (value / 2) as int
    } else {
        -((value / 2) as int) - 1
    })) by (bit_vector)
        requires
            half == value >> 1u32,
            low == value & 0b1,
    ;
    let h = half as i128;
    let m: i128 = -(low as i128);
    let r = h ^ m;
    r
}

/// _ZigZag_ is a bijection between the integers and the natural numbers: decoding undoes
/// encoding, and encoding undoes decoding.
pub proof fn law_zigzag_roundtrip(v: int)
    ensures
        unzigzag(zigzag(v)) == v,
        zigzag(unzigzag(zigzag(v))) == zigzag(v),
{
}

/// Encoding undoes _ZigZag_ decoding.
pub proof fn law_unzigzag_roundtrip(u: nat)
    ensures
        zigzag(unzigzag(u)) == u,
{
}

/// `2^16`, the number of values of a `u16`.
pub open spec fn modulus_u16() -> nat {
    0x10000nat
}

/// Truncate a decoded `u128` to `u16`.
proof fn lemma_truncate_u16(x: u128, g: nat)
    requires
        x as nat == g % modulus_u128(),
    ensures
        (x as u16) as nat == g % modulus_u16(),
{
    lemma_mod_mod(g as int, 0x10000int, modulus_u128() as int / 0x10000int);
    assert((x as u16) as nat == x as nat % 0x10000nat) by (bit_vector);
}

/// Every `u16` takes at most 3 bytes as _Varint_.
pub proof fn lemma_encode_len_u16(value: u16)
    ensures
        1 <= spec_encode(value as nat).len() <= 3,
{
    assert(pow128(3) == 2097152nat) by {
        reveal_with_fuel(pow128, 4);
    }
    lemma_encode_len_bound(value as nat, 3);
}

/// Encode a `u16` as _Varint_. The bytes after the returned length are zero.
pub fn encode_u16(value: u16) -> (res: ([u8; 3], usize))
    ensures
        res.1 == spec_encode(value as nat).len(),
        res.0@ == spec_encode(value as nat) + Seq::new((3 - res.1) as nat, |k: int| 0u8),
{
    proof {
        lemma_encode_len_u16(value);
    }
    let mut buf = [0u8; 3];
    let ghost zeros = buf@;
    let n = write_varint(value as u128, &mut buf);
    proof {
        assert(buf@ =~= buf@.take(n as int) + buf@.skip(n as int));
        assert(zeros.skip(n as int) =~= Seq::new((3 - n) as nat, |k: int| 0u8));
    }
    (buf, n)
}

/// Decode a _Varint_ back to a `u16`: it must end within the first 3 bytes, and groups beyond
/// 16 bits are cut off.
///
/// # Errors
///
/// Will return `Err` if the raw bytes don't contain an end marker within the possible
/// maximum byte count valid for the integer.
pub fn decode_u16(buf: &[u8]) -> (res: Result<(u16, usize), DecodeIntError>)
    ensures
        match spec_decode(buf@, 3) {
            Some((v, n)) => res == Ok::<(u16, usize), DecodeIntError>(
                ((v % modulus_u16()) as u16, n as usize),
            ),
            None => res.is_err(),
        },
{
    match read_varint(buf, 3) {
        Ok((x, n)) => {
            proof {
                let g = spec_decode(buf@, 3).unwrap().0;
                lemma_truncate_u16(x, g);
            }
            Ok((x as u16, n))
        },
        Err(e) => Err(e),
    }
}

/// Calculate the byte size of a `u16` encoded as _Varint_.
pub fn size_u16(value: u16) -> (r: usize)
    ensures
        r == spec_encode(value as nat).len(),
        1 <= r <= 3,
{
    proof {
        lemma_encode_len_u16(value);
    }
    varint_size(value as u128)
}

/// Encode a `i16` as _Varint_ of its _ZigZag_ form. The bytes after the returned length are zero.
pub fn encode_i16(value: i16) -> (res: ([u8; 3], usize))
    ensures
        res.1 == spec_encode(zigzag(value as int)).len(),
        res.0@ == spec_encode(zigzag(value as int)) + Seq::new((3 - res.1) as nat, |k: int| 0u8),
{
    encode_u16(zigzag_encode_i16(value))
}

/// Decode a _Varint_ back to a `i16`, undoing the _ZigZag_ mapping.
///
/// # Errors
///
/// Will return `Err` if the raw bytes don't contain an end marker within the possible
/// maximum byte count valid for the integer.
pub fn decode_i16(buf: &[u8]) -> (res: Result<(i16, usize), DecodeIntError>)
    ensures
        match spec_decode(buf@, 3) {
            Some((v, n)) => res == Ok::<(i16, usize), DecodeIntError>(
                (unzigzag(v % modulus_u16()) as i16, n as usize),
            ),
            None => res.is_err(),
        },
{
    match decode_u16(buf) {
        Ok((v, b)) => Ok((zigzag_decode_i16(v), b)),
        Err(e) => Err(e),
    }
}

/// Calculate the byte size of a `i16` encoded as _Varint_.
pub fn size_i16(value: i16) -> (r: usize)
    ensures
        r == spec_encode(zigzag(value as int)).len(),
        1 <= r <= 3,
{
    size_u16(zigzag_encode_i16(value))
}

/// Decoding reads back what encoding wrote: the _Varint_ of any `u16`, followed by any bytes,
/// decodes to the same value and consumes exactly the encoded length.
pub proof fn law_roundtrip_u16(value: u16, rest: Seq<u8>)
    ensures
        spec_decode(spec_encode(value as nat) + rest, 3) == Some(
            (value as nat, spec_encode(value as nat).len()),
        ),
        (value as nat % modulus_u16()) as u16 == value,
{
    lemma_encode_len_u16(value);
    lemma_decode_encode(value as nat, rest, 3);
    lemma_small_mod(value as nat, modulus_u16());
}

/// The signed round trip: the _Varint_ of the _ZigZag_ form of any `i16`, followed by any bytes,
/// decodes (and un-zigzags) to the same value and consumes exactly the encoded length.
pub proof fn law_roundtrip_i16(value: i16, rest: Seq<u8>)
    ensures
        spec_decode(spec_encode(zigzag(value as int)) + rest, 3) == Some(
            (zigzag(value as int), spec_encode(zigzag(value as int)).len()),
        ),
        unzigzag(zigzag(value as int) % modulus_u16()) == value,
{
    assert(zigzag(value as int) < modulus_u16());
    law_roundtrip_u16(zigzag(value as int) as u16, rest);
    law_zigzag_roundtrip(value as int);
}

/// `2^32`, the number of values of a `u32`.
pub open spec fn modulus_u32() -> nat {
    0x1_0000_0000nat
}

/// Truncate a decoded `u128` to `u32`.
proof fn lemma_truncate_u32(x: u128, g: nat)
    requires
        x as nat == g % modulus_u128(),
    ensures
        (x as u32) as nat == g % modulus_u32(),
{
    lemma_mod_mod(g as int, 0x1_0000_0000int, modulus_u128() as int / 0x1_0000_0000int);
    assert((x as u32) as nat == x as nat % 0x1_0000_0000nat) by (bit_vector);
}

/// Every `u32` takes at most 5 bytes as _Varint_.
pub proof fn lemma_encode_len_u32(value: u32)
    ensures
        1 <= spec_encode(value as nat).len() <= 5,
{
    assert(pow128(5) == 34359738368nat) by {
        reveal_with_fuel(pow128, 6);
    }
    lemma_encode_len_bound(value as nat, 5);
}

/// Encode a `u32` as _Varint_. The bytes after the returned length are zero.
pub fn encode_u32(value: u32) -> (res: ([u8; 5], usize))
    ensures
        res.1 == spec_encode(value as nat).len(),
        res.0@ == spec_encode(value as nat) + Seq::new((5 - res.1) as nat, |k: int| 0u8),
{
    proof {
        lemma_encode_len_u32(value);
    }
    let mut buf = [0u8; 5];
    let ghost zeros = buf@;
    let n = write_varint(value as u128, &mut buf);
    proof {
        assert(buf@ =~= buf@.take(n as int) + buf@.skip(n as int));
        assert(zeros.skip(n as int) =~= Seq::new((5 - n) as nat, |k: int| 0u8));
    }
    (buf, n)
}

/// Decode a _Varint_ back to a `u32`: it must end within the first 5 bytes, and groups beyond
/// 32 bits are cut off.
///
/// # Errors
///
/// Will return `Err` if the raw bytes don't contain an end marker within the possible
/// maximum byte count valid for the integer.
pub fn decode_u32(buf: &[u8]) -> (res: Result<(u32, usize), DecodeIntError>)
    ensures
        match spec_decode(buf@, 5) {
            Some((v, n)) => res == Ok::<(u32, usize), DecodeIntError>(
                ((v % modulus_u32()) as u32, n as usize),
            ),
            None => res.is_err(),
        },
{
    match read_varint(buf, 5) {
        Ok((x, n)) => {
            proof {
                let g = spec_decode(buf@, 5).unwrap().0;
                lemma_truncate_u32(x, g);
            }
            Ok((x as u32, n))
        },
        Err(e) => Err(e),
    }
}

/// Calculate the byte size of a `u32` encoded as _Varint_.
pub fn size_u32(value: u32) -> (r: usize)
    ensures
        r == spec_encode(value as nat).len(),
        1 <= r <= 5,
{
    proof {
        lemma_encode_len_u32(value);
    }
    varint_size(value as u128)
}

/// Encode a `i32` as _Varint_ of its _ZigZag_ form. The bytes after the returned length are zero.
pub fn encode_i32(value: i32) -> (res: ([u8; 5], usize))
    ensures
        res.1 == spec_encode(zigzag(value as int)).len(),
        res.0@ == spec_encode(zigzag(value as int)) + Seq::new((5 - res.1) as nat, |k: int| 0u8),
{
    encode_u32(zigzag_encode_i32(value))
}

/// Decode a _Varint_ back to a `i32`, undoing the _ZigZag_ mapping.
///
/// # Errors
///
/// Will return `Err` if the raw bytes don't contain an end marker within the possible
/// maximum byte count valid for the integer.
pub fn decode_i32(buf: &[u8]) -> (res: Result<(i32, usize), DecodeIntError>)
    ensures
        match spec_decode(buf@, 5) {
            Some((v, n)) => res == Ok::<(i32, usize), DecodeIntError>(
                (unzigzag(v % modulus_u32()) as i32, n as usize),
            ),
            None => res.is_err(),
        },
{
    match decode_u32(buf) {
        Ok((v, b)) => Ok((zigzag_decode_i32(v), b)),
        Err(e) => Err(e),
    }
}

/// Calculate the byte size of a `i32` encoded as _Varint_.
pub fn size_i32(value: i32) -> (r: usize)
    ensures
        r == spec_encode(zigzag(value as int)).len(),
        1 <= r <= 5,
{
    size_u32(zigzag_encode_i32(value))
}

/// Decoding reads back what encoding wrote: the _Varint_ of any `u32`, followed by any bytes,
/// decodes to the same value and consumes exactly the encoded length.
pub proof fn law_roundtrip_u32(value: u32, rest: Seq<u8>)
    ensures
        spec_decode(spec_encode(value as nat) + rest, 5) == Some(
            (value as nat, spec_encode(value as nat).len()),
        ),
        (value as nat % modulus_u32()) as u32 == value,
{
    lemma_encode_len_u32(value);
    lemma_decode_encode(value as nat, rest, 5);
    lemma_small_mod(value as nat, modulus_u32());
}

/// The signed round trip: the _Varint_ of the _ZigZag_ form of any `i32`, followed by any bytes,
/// decodes (and un-zigzags) to the same value and consumes exactly the encoded length.
pub proof fn law_roundtrip_i32(value: i32, rest: Seq<u8>)
    ensures
        spec_decode(spec_encode(zigzag(value as int)) + rest, 5) == Some(
            (zigzag(value as int), spec_encode(zigzag(value as int)).len()),
        ),
        unzigzag(zigzag(value as int) % modulus_u32()) == value,
{
    assert(zigzag(value as int) < modulus_u32());
    law_roundtrip_u32(zigzag(value as int) as u32, rest);
    law_zigzag_roundtrip(value as int);
}

/// `2^64`, the number of values of a `u64`.
pub open spec fn modulus_u64() -> nat {
    0x1_0000_0000_0000_0000nat
}

/// Truncate a decoded `u128` to `u64`.
proof fn lemma_truncate_u64(x: u128, g: nat)
    requires
        x as nat == g % modulus_u128(),
    ensures
        (x as u64) as nat == g % modulus_u64(),
{
    lemma_mod_mod(g as int, 0x1_0000_0000_0000_0000int, modulus_u128() as int / 0x1_0000_0000_0000_0000int);
    assert((x as u64) as nat == x as nat % 0x1_0000_0000_0000_0000nat) by (bit_vector);
}

/// Every `u64` takes at most 10 bytes as _Varint_.
pub proof fn lemma_encode_len_u64(value: u64)
    ensures
        1 <= spec_encode(value as nat).len() <= 10,
{
    assert(pow128(10) == 1180591620717411303424nat) by {
        reveal_with_fuel(pow128, 11);
    }
    lemma_encode_len_bound(value as nat, 10);
}

/// Encode a `u64` as _Varint_. The bytes after the returned length are zero.
pub fn encode_u64(value: u64) -> (res: ([u8; 10], usize))
    ensures
        res.1 == spec_encode(value as nat).len(),
        res.0@ == spec_encode(value as nat) + Seq::new((10 - res.1) as nat, |k: int| 0u8),
{
    proof {
        lemma_encode_len_u64(value);
    }
    let mut buf = [0u8; 10];
    let ghost zeros = buf@;
    let n = write_varint(value as u128, &mut buf);
    proof {
        assert(buf@ =~= buf@.take(n as int) + buf@.skip(n as int));
        assert(zeros.skip(n as int) =~= Seq::new((10 - n) as nat, |k: int| 0u8));
    }
    (buf, n)
}

/// Decode a _Varint_ back to a `u64`: it must end within the first 10 bytes, and groups beyond
/// 64 bits are cut off.
///
/// # Errors
///
/// Will return `Err` if the raw bytes don't contain an end marker within the possible
/// maximum byte count valid for the integer.
pub fn decode_u64(buf: &[u8]) -> (res: Result<(u64, usize), DecodeIntError>)
    ensures
        match spec_decode(buf@, 10) {
            Some((v, n)) => res == Ok::<(u64, usize), DecodeIntError>(
                ((v % modulus_u64()) as u64, n as usize),
            ),
            None => res.is_err(),
        },
{
    match read_varint(buf, 10) {
        Ok((x, n)) => {
            proof {
                let g = spec_decode(buf@, 10).unwrap().0;
                lemma_truncate_u64(x, g);
            }
            Ok((x as u64, n))
        },
        Err(e) => Err(e),
    }
}

/// Calculate the byte size of a `u64` encoded as _Varint_.
pub fn size_u64(value: u64) -> (r: usize)
    ensures
        r == spec_encode(value as nat).len(),
        1 <= r <= 10,
{
    proof {
        lemma_encode_len_u64(value);
    }
    varint_size(value as u128)
}

/// Encode a `i64` as _Varint_ of its _ZigZag_ form. The bytes after the returned length are zero.
pub fn encode_i64(value: i64) -> (res: ([u8; 10], usize))
    ensures
        res.1 == spec_encode(zigzag(value as int)).len(),
        res.0@ == spec_encode(zigzag(value as int)) + Seq::new((10 - res.1) as nat, |k: int| 0u8),
{
    encode_u64(zigzag_encode_i64(value))
}

/// Decode a _Varint_ back to a `i64`, undoing the _ZigZag_ mapping.
///
/// # Errors
///
/// Will return `Err` if the raw bytes don't contain an end marker within the possible
/// maximum byte count valid for the integer.
pub fn decode_i64(buf: &[u8]) -> (res: Result<(i64, usize), DecodeIntError>)
    ensures
        match spec_decode(buf@, 10) {
            Some((v, n)) => res == Ok::<(i64, usize), DecodeIntError>(
                (unzigzag(v % modulus_u64()) as i64, n as usize),
            ),
            None => res.is_err(),
        },
{
    match decode_u64(buf) {
        Ok((v, b)) => Ok((zigzag_decode_i64(v), b)),
        Err(e) => Err(e),
    }
}

/// Calculate the byte size of a `i64` encoded as _Varint_.
pub fn size_i64(value: i64) -> (r: usize)
    ensures
        r == spec_encode(zigzag(value as int)).len(),
        1 <= r <= 10,
{
    size_u64(zigzag_encode_i64(value))
}

/// Decoding reads back what encoding wrote: the _Varint_ of any `u64`, followed by any bytes,
/// decodes to the same value and consumes exactly the encoded length.
pub proof fn law_roundtrip_u64(value: u64, rest: Seq<u8>)
    ensures
        spec_decode(spec_encode(value as nat) + rest, 10) == Some(
            (value as nat, spec_encode(value as nat).len()),
        ),
        (value as nat % modulus_u64()) as u64 == value,
{
    lemma_encode_len_u64(value);
    lemma_decode_encode(value as nat, rest, 10);
    lemma_small_mod(value as nat, modulus_u64());
}

/// The signed round trip: the _Varint_ of the _ZigZag_ form of any `i64`, followed by any bytes,
/// decodes (and un-zigzags) to the same value and consumes exactly the encoded length.
pub proof fn law_roundtrip_i64(value: i64, rest: Seq<u8>)
    ensures
        spec_decode(spec_encode(zigzag(value as int)) + rest, 10) == Some(
            (zigzag(value as int), spec_encode(zigzag(value as int)).len()),
        ),
        unzigzag(zigzag(value as int) % modulus_u64()) == value,
{
    assert(zigzag(value as int) < modulus_u64());
    law_roundtrip_u64(zigzag(value as int) as u64, rest);
    law_zigzag_roundtrip(value as int);
}

/// Truncate a decoded `u128` to `u128`.
proof fn lemma_truncate_u128(x: u128, g: nat)
    requires
        x as nat == g % modulus_u128(),
    ensures
        (x as u128) as nat == g % modulus_u128(),
{
    lemma_small_mod(g % modulus_u128(), modulus_u128());
}

/// Encode a `u128` as _Varint_. The bytes after the returned length are zero.
pub fn encode_u128(value: u128) -> (res: ([u8; 19], usize))
    ensures
        res.1 == spec_encode(value as nat).len(),
        res.0@ == spec_encode(value as nat) + Seq::new((19 - res.1) as nat, |k: int| 0u8),
{
    proof {
        lemma_encode_len_u128(value as nat);
    }
    let mut buf = [0u8; 19];
    let ghost zeros = buf@;
    let n = write_varint(value as u128, &mut buf);
    proof {
        assert(buf@ =~= buf@.take(n as int) + buf@.skip(n as int));
        assert(zeros.skip(n as int) =~= Seq::new((19 - n) as nat, |k: int| 0u8));
    }
    (buf, n)
}

/// Decode a _Varint_ back to a `u128`: it must end within the first 19 bytes, and groups beyond
/// 128 bits are cut off.
///
/// # Errors
///
/// Will return `Err` if the raw bytes don't contain an end marker within the possible
/// maximum byte count valid for the integer.
pub fn decode_u128(buf: &[u8]) -> (res: Result<(u128, usize), DecodeIntError>)
    ensures
        match spec_decode(buf@, 19) {
            Some((v, n)) => res == Ok::<(u128, usize), DecodeIntError>(
                ((v % modulus_u128()) as u128, n as usize),
            ),
            None => res.is_err(),
        },
{
    match read_varint(buf, 19) {
        Ok((x, n)) => {
            proof {
                let g = spec_decode(buf@, 19).unwrap().0;
                lemma_truncate_u128(x, g);
            }
            Ok((x as u128, n))
        },
        Err(e) => Err(e),
    }
}

/// Calculate the byte size of a `u128` encoded as _Varint_.
pub fn size_u128(value: u128) -> (r: usize)
    ensures
        r == spec_encode(value as nat).len(),
        1 <= r <= 19,
{
    proof {
        lemma_encode_len_u128(value as nat);
    }
    varint_size(value as u128)
}

/// Encode a `i128` as _Varint_ of its _ZigZag_ form. The bytes after the returned length are zero.
pub fn encode_i128(value: i128) -> (res: ([u8; 19], usize))
    ensures
        res.1 == spec_encode(zigzag(value as int)).len(),
        res.0@ == spec_encode(zigzag(value as int)) + Seq::new((19 - res.1) as nat, |k: int| 0u8),
{
    encode_u128(zigzag_encode_i128(value))
}

/// Decode a _Varint_ back to a `i128`, undoing the _ZigZag_ mapping.
///
/// # Errors
///
/// Will return `Err` if the raw bytes don't contain an end marker within the possible
/// maximum byte count valid for the integer.
pub fn decode_i128(buf: &[u8]) -> (res: Result<(i128, usize), DecodeIntError>)
    ensures
        match spec_decode(buf@, 19) {
            Some((v, n)) => res == Ok::<(i128, usize), DecodeIntError>(
                (unzigzag(v % modulus_u128()) as i128, n as usize),
            ),
            None => res.is_err(),
        },
{
    match decode_u128(buf) {
        Ok((v, b)) => Ok((zigzag_decode_i128(v), b)),
        Err(e) => Err(e),
    }
}

/// Calculate the byte size of a `i128` encoded as _Varint_.
pub fn size_i128(value: i128) -> (r: usize)
    ensures
        r == spec_encode(zigzag(value as int)).len(),
        1 <= r <= 19,
{
    size_u128(zigzag_encode_i128(value))
}

/// Decoding reads back what encoding wrote: the _Varint_ of any `u128`, followed by any bytes,
/// decodes to the same value and consumes exactly the encoded length.
pub proof fn law_roundtrip_u128(value: u128, rest: Seq<u8>)
    ensures
        spec_decode(spec_encode(value as nat) + rest, 19) == Some(
            (value as nat, spec_encode(value as nat).len()),
        ),
        (value as nat % modulus_u128()) as u128 == value,
{
    lemma_encode_len_u128(value as nat);
    lemma_decode_encode(value as nat, rest, 19);
    lemma_small_mod(value as nat, modulus_u128());
}

/// The signed round trip: the _Varint_ of the _ZigZag_ form of any `i128`, followed by any bytes,
/// decodes (and un-zigzags) to the same value and consumes exactly the encoded length.
pub proof fn law_roundtrip_i128(value: i128, rest: Seq<u8>)
    ensures
        spec_decode(spec_encode(zigzag(value as int)) + rest, 19) == Some(
            (zigzag(value as int), spec_encode(zigzag(value as int)).len()),
        ),
        unzigzag(zigzag(value as int) % modulus_u128()) == value,
{
    assert(zigzag(value as int) < modulus_u128());
    law_roundtrip_u128(zigzag(value as int) as u128, rest);
    law_zigzag_roundtrip(value as int);
}

} // verus!
