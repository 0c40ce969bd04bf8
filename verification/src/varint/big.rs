//! _Varint_ encoding of unsigned integers of any size.
//!
//! The integers are held as their base-2^32 digits, least significant first (the form in which
//! `num_bigint::BigUint` hands them out and takes them in); the arithmetic on them is done by
//! `num_bigint`.

use num_bigint::{BigInt, BigUint, Sign};
use vstd::arithmetic::div_mod::{
    lemma_div_denominator, lemma_fundamental_div_mod, lemma_fundamental_div_mod_converse,
};
use vstd::arithmetic::power2::{lemma2_to64, lemma_pow2_adds, lemma_pow2_pos, lemma_pow2_unfold, pow2};
use vstd::prelude::*;

use super::{
    groups_value, law_zigzag_roundtrip, lemma_decode_encode, lemma_encode_shape,
    lemma_varint_end_iff, lemma_varint_end_none, pow128, spec_decode, spec_encode, unzigzag,
    varint_end, zigzag, DecodeIntError,
};

verus! {

// ------------------------------------------------------------------------------------------------
// Model
// ------------------------------------------------------------------------------------------------

/// The number that base-2^32 digits stand for, least significant digit first.
pub open spec fn digits_value(d: Seq<u32>) -> nat
    decreases d.len(),
{
    if d.len() == 0 {
        0
    } else {
        d[0] as nat + 0x1_0000_0000 * digits_value(d.drop_first())
    }
}

/// The count of binary digits of a number (zero for zero).
pub open spec fn bit_len(v: nat) -> nat
    decreases v,
{
    if v == 0 {
        0
    } else {
        1 + bit_len(v / 2)
    }
}

/// An unsigned integer of any size, as its base-2^32 digits, least significant first.
#[derive(Clone, Debug, PartialEq, Eq)]
pub struct BigNat {
    /// The digits (trailing zero digits are allowed and do not change the value).
    pub digits: Vec<u32>,
}

impl View for BigNat {
    type V = nat;

    open spec fn view(&self) -> nat {
        digits_value(self.digits@)
    }
}

// ------------------------------------------------------------------------------------------------
// Calls into `num_bigint`
// ------------------------------------------------------------------------------------------------

/// `BigUint::bits`: the count of binary digits of the number.
#[verifier::external_body]
fn big_bits(d: &[u32]) -> (r: u64)
    ensures
        r == bit_len(digits_value(d@)),
{
    BigUint::from_slice(d).bits()
}

/// `&` with `0xff`, then the first item of `BigUint::iter_u32_digits`: the low byte of the number,
/// or nothing where it is zero (a zero number has no digits).
#[verifier::external_body]
fn big_low_byte(d: &[u32]) -> (r: Option<u32>)
    ensures
        r == (if digits_value(d@) % 256 == 0 {
            None
        } else {
            Some((digits_value(d@) % 256) as u32)
        }),
{
    (BigUint::from_slice(d) & BigUint::from(0xff_u32)).iter_u32_digits().next()
}

/// `<` between two `BigUint`s: whether the number is below the bound.
#[verifier::external_body]
fn big_below(d: &[u32], bound: u32) -> (r: bool)
    ensures
        r == (digits_value(d@) < bound),
{
    BigUint::from_slice(d) < BigUint::from(bound)
}

/// `>>` on a `BigUint`: the number divided by `2^n`, rounded down, as its digits.
#[verifier::external_body]
fn big_shr(d: &[u32], n: u32) -> (r: Vec<u32>)
    ensures
        digits_value(r@) == digits_value(d@) / pow2(n as nat),
{
    (BigUint::from_slice(d) >> n).to_u32_digits()
}

/// `|` with `BigUint::from(g) << shift`, on a number below `2^shift`, whose bits the shifted
/// group does not touch: the number plus `g * 2^shift`, as its digits.
#[verifier::external_body]
fn big_or_shl(d: &[u32], g: u8, shift: usize) -> (r: Vec<u32>)
    requires
        digits_value(d@) < pow2(shift as nat),
    ensures
        digits_value(r@) == digits_value(d@) + g * pow2(shift as nat),
{
    (BigUint::from_slice(d) | (BigUint::from(g) << shift)).to_u32_digits()
}

// ------------------------------------------------------------------------------------------------
// Lemmas
// ------------------------------------------------------------------------------------------------

/// A number has at most one binary digit more than its half.
proof fn lemma_bit_len_half(v: nat)
    ensures
        bit_len(v) <= 1 + bit_len(v / 2),
        v > 0 ==> bit_len(v) == 1 + bit_len(v / 2),
{
}

/// Dividing by 128 takes away seven binary digits, all of them from a number below 128.
proof fn lemma_bit_len_div128(v: nat)
    ensures
        bit_len(v) <= 7 + bit_len(v / 128),
        v >= 128 ==> bit_len(v) == 7 + bit_len(v / 128),
{
    let v1 = v / 2;
    let v2 = v1 / 2;
    let v3 = v2 / 2;
    let v4 = v3 / 2;
    let v5 = v4 / 2;
    let v6 = v5 / 2;
    let v7 = v6 / 2;
    lemma_div_denominator(v as int, 2, 2);
    lemma_div_denominator(v as int, 4, 2);
    lemma_div_denominator(v as int, 8, 2);
    lemma_div_denominator(v as int, 16, 2);
    lemma_div_denominator(v as int, 32, 2);
    lemma_div_denominator(v as int, 64, 2);
    assert(v7 == v / 128);
    lemma_bit_len_half(v);
    lemma_bit_len_half(v1);
    lemma_bit_len_half(v2);
    lemma_bit_len_half(v3);
    lemma_bit_len_half(v4);
    lemma_bit_len_half(v5);
    lemma_bit_len_half(v6);
    if v >= 128 {
        assert(v6 == v / 64);
        assert(v6 >= 2);
    }
}

/// The _Varint_ of a number takes one byte per started group of seven binary digits, and at
/// least one.
proof fn lemma_encode_len_bits(v: nat)
    ensures
        spec_encode(v).len() == (if bit_len(v) <= 7 {
            1
        } else {
            (bit_len(v) + 6) / 7
        }),
    decreases v,
{
    lemma_bit_len_div128(v);
    if v >= 128 {
        lemma_encode_len_bits(v / 128);
        assert(spec_encode(v).len() == 1 + spec_encode(v / 128).len());
        assert(bit_len(v / 128) >= 1) by {
            lemma_bit_len_half(v / 128);
        }
    } else {
        assert(v / 128 == 0);
        assert(bit_len(0) == 0);
    }
}

/// `2^(7k)` is `128^k`.
proof fn lemma_pow2_groups(k: nat)
    ensures
        pow2(7 * k) == pow128(k),
    decreases k,
{
    lemma2_to64();
    if k > 0 {
        let j = (k - 1) as nat;
        lemma_pow2_groups(j);
        lemma_pow2_adds(7 * j, 7);
        assert(7 * k == 7 * j + 7);
        assert(pow2(7 * k) == pow2(7 * j) * 128);
        assert(pow128(k) == 128 * pow128(j));
    }
}

/// The bytes of a _Varint_ from position `i` on are the _Varint_ of the number divided by
/// `128^i`.
proof fn lemma_encode_from(v: nat, i: nat)
    requires
        i < spec_encode(v).len(),
    ensures
        spec_encode(v).subrange(i as int, spec_encode(v).len() as int) == spec_encode(
            v / pow128(i),
        ),
    decreases i,
{
    let s = spec_encode(v);
    if i == 0 {
        assert(s.subrange(0, s.len() as int) =~= s);
        assert(v / 1 == v);
    } else {
        assert(v >= 128);
        assert(s.drop_first() == spec_encode(v / 128));
        lemma_encode_from(v / 128, (i - 1) as nat);
        assert(s.subrange(i as int, s.len() as int) =~= spec_encode(v / 128).subrange(
            i - 1,
            spec_encode(v / 128).len() as int,
        ));
        assert(pow128(i) == 128 * pow128((i - 1) as nat));
        assert(pow128((i - 1) as nat) > 0) by {
            lemma_pow128_pos((i - 1) as nat);
        }
        lemma_div_denominator(v as int, 128, pow128((i - 1) as nat) as int);
    }
}

/// `128^k` is positive.
proof fn lemma_pow128_pos(k: nat)
    ensures
        pow128(k) > 0,
    decreases k,
{
    if k > 0 {
        lemma_pow128_pos((k - 1) as nat);
    }
}

/// The groups of the first `i + 1` bytes are those of the first `i`, plus the next group times
/// `128^i`.
proof fn lemma_groups_push(s: Seq<u8>, i: nat)
    requires
        i < s.len(),
    ensures
        groups_value(s.take(i as int + 1)) == groups_value(s.take(i as int)) + (s[i as int] % 128)
            as nat * pow128(i),
    decreases i,
{
    let d = s.drop_first();
    let x = (s[i as int] % 128) as nat;
    if i > 0 {
        let j = (i - 1) as nat;
        lemma_groups_push(d, j);
        assert(s.take(i as int + 1).drop_first() =~= d.take(i as int));
        assert(s.take(i as int).drop_first() =~= d.take(j as int));
        assert(d[j as int] == s[i as int]);
        assert(s.take(i as int + 1)[0] == s[0]);
        assert(s.take(i as int)[0] == s[0]);
        let a = groups_value(d.take(j as int));
        assert(groups_value(d.take(i as int)) == a + x * pow128(j));
        assert(groups_value(s.take(i as int + 1)) == (s[0] % 128) as nat + 128 * (a + x * pow128(
            j,
        )));
        assert(groups_value(s.take(i as int)) == (s[0] % 128) as nat + 128 * a);
        assert(pow128(i) == 128 * pow128(j));
        assert(128 * (a + x * pow128(j)) == 128 * a + x * (128 * pow128(j))) by (nonlinear_arith);
    } else {
        assert(s.take(1).drop_first() =~= Seq::<u8>::empty());
        assert(s.take(0) =~= Seq::<u8>::empty());
        assert(s.take(1)[0] == s[0]);
        assert(pow128(0) == 1);
        assert(groups_value(s.take(1)) == x + 128 * groups_value(Seq::<u8>::empty()));
    }
}

// ------------------------------------------------------------------------------------------------
// Encoding, decoding and size
// ------------------------------------------------------------------------------------------------

/// Calculate the byte size of an unsigned integer of any size encoded as _Varint_: its binary
/// digits divided by 7, rounded up, and at least 1.
pub fn size_ubig(value: &BigNat) -> (r: usize)
    requires
        (bit_len(value@) + 6) / 7 <= usize::MAX,
    ensures
        r == (if bit_len(value@) <= 7 {
            1
        } else {
            (bit_len(value@) + 6) / 7
        }),
        r == spec_encode(value@).len(),
{
    let bits = big_bits(value.digits.as_slice());
    proof {
        lemma_encode_len_bits(value@);
    }
    let groups: u64 = if bits % 7 == 0 {
        bits / 7
    } else {
        bits / 7 + 1
    };
    assert(groups == (bits + 6) / 7);
    if groups > 1 {
        groups as usize
    } else {
        1
    }
}

/// Encode an unsigned integer of any size as _Varint_.
pub fn encode_ubig(value: &BigNat) -> (r: Vec<u8>)
    requires
        (bit_len(value@) + 6) / 7 <= usize::MAX,
    ensures
        r@ == spec_encode(value@),
{
    let ghost v = value@;
    let size = size_ubig(value);
    let mut cur: Vec<u32> = value.digits.clone();
    assert(cur@ =~= value.digits@);
    let mut buf: Vec<u8> = Vec::new();
    let mut i: usize = 0;
    proof {
        lemma_encode_shape(v);
        assert(pow128(0) == 1);
        assert(v / 1 == v);
        assert(spec_encode(v).take(0) =~= Seq::<u8>::empty());
    }
    while i < size
        invariant
            v == value@,
            size == spec_encode(v).len(),
            i < spec_encode(v).len(),
            digits_value(cur@) == v / pow128(i as nat),
            buf@ == spec_encode(v).take(i as int),
        decreases size - i,
    {
        let ghost vi = v / pow128(i as nat);
        proof {
            lemma_encode_from(v, i as nat);
            lemma_pow128_pos(i as nat);
        }
        // A zero low byte has no digit to hand out.
        let b: u32 = match big_low_byte(cur.as_slice()) {
            Some(low) => low,
            None => 0,
        };
        assert(b == vi % 256);
        let ghost rest = spec_encode(v).subrange(i as int, spec_encode(v).len() as int);
        assert(rest == spec_encode(vi));
        assert(rest[0] == spec_encode(v)[i as int]);
        if big_below(cur.as_slice(), 128) {
            assert(b == vi);
            buf.push(b as u8);
            proof {
                assert(spec_encode(vi).len() == 1);
                assert(i + 1 == spec_encode(v).len());
                assert(buf@ =~= spec_encode(v).take(i as int + 1));
                assert(spec_encode(v).take(i as int + 1) =~= spec_encode(v));
                assert(buf@ == spec_encode(v));
            }
            return buf;
        }
        let byte: u8 = (b as u8) | 0x80;
        proof {
            assert(b < 256);
            assert(((b as u8) | 0x80u8) == ((b as u8) % 128 + 128) as u8) by (bit_vector);
            assert(b % 128 == vi % 128) by {
                assert(b == vi % 256);
                vstd::arithmetic::div_mod::lemma_mod_mod(vi as int, 128, 2);
            }
            assert(spec_encode(vi) =~= seq![(vi % 128 + 128) as u8] + spec_encode(vi / 128));
            assert(byte == spec_encode(v)[i as int]);
        }
        buf.push(byte);
        let next = big_shr(cur.as_slice(), 7);
        proof {
            lemma2_to64();
            assert(pow2(7) == 128);
            lemma_div_denominator(v as int, pow128(i as nat) as int, 128);
            assert(pow128(i as nat + 1) == 128 * pow128(i as nat));
            assert(buf@ =~= spec_encode(v).take(i as int + 1));
            assert(spec_encode(vi).len() > 1);
            assert(i + 1 < spec_encode(v).len());
        }
        cur = next;
        i = i + 1;
    }
    buf
}

/// Decode a _Varint_ back to an unsigned integer of any size, with the count of bytes it takes.
///
/// # Errors
///
/// Will return `Err` if the raw bytes don't contain an end marker.
pub fn decode_ubig(buf: &[u8]) -> (r: Result<(BigNat, usize), DecodeIntError>)
    requires
        buf@.len() <= usize::MAX / 7,
    ensures
        match r {
            Ok((value, n)) => spec_decode(buf@, buf@.len()) == Some((value@, n as nat)),
            Err(_) => spec_decode(buf@, buf@.len()) is None,
        },
{
    let mut acc: Vec<u32> = Vec::new();
    let mut i: usize = 0;
    while i < buf.len()
        invariant
            i <= buf@.len() <= usize::MAX / 7,
            digits_value(acc@) == groups_value(buf@.take(i as int)),
            digits_value(acc@) < pow128(i as nat),
            forall|j: int| 0 <= j < i ==> buf@[j] >= 128,
        decreases buf@.len() - i,
    {
        let b = buf[i];
        let g: u8 = b & 0x7f;
        assert(b & 0x7f == b % 128) by (bit_vector);
        proof {
            lemma_pow2_groups(i as nat);
            lemma_groups_push(buf@, i as nat);
            lemma_pow128_pos(i as nat);
        }
        acc = big_or_shl(acc.as_slice(), g, 7 * i);
        proof {
            assert(digits_value(acc@) < pow128(i as nat + 1)) by (nonlinear_arith)
                requires
                    digits_value(acc@) == groups_value(buf@.take(i as int)) + g * pow128(i as nat),
                    groups_value(buf@.take(i as int)) < pow128(i as nat),
                    g < 128,
                    pow128(i as nat + 1) == 128 * pow128(i as nat),
            ;
        }
        if b & 0x80 == 0 {
            assert(b < 128) by (bit_vector)
                requires
                    b & 0x80 == 0,
            ;
            proof {
                lemma_varint_end_iff(buf@, i as nat + 1);
            }
            return Ok((BigNat { digits: acc }, i + 1));
        }
        assert(b >= 128) by (bit_vector)
            requires
                b & 0x80 != 0,
        ;
        i = i + 1;
    }
    proof {
        assert(buf@.take(i as int) =~= buf@);
        lemma_varint_end_none(buf@);
    }
    Err(DecodeIntError)
}

/// Decoding reads back what encoding wrote: the _Varint_ of an unsigned integer of any size,
/// followed by any other bytes, decodes to that integer and the length of its encoding.
pub proof fn law_ubig_roundtrip(v: nat, rest: Seq<u8>)
    ensures
        spec_decode(spec_encode(v) + rest, (spec_encode(v) + rest).len()) == Some(
            (v, spec_encode(v).len()),
        ),
{
    lemma_decode_encode(v, rest, (spec_encode(v) + rest).len());
}

// ------------------------------------------------------------------------------------------------
// Signed integers
// ------------------------------------------------------------------------------------------------

/// A signed integer of any size, as a sign and a magnitude.
#[derive(Clone, Debug, PartialEq, Eq)]
pub struct BigInteger {
    /// Whether the number is below zero (a zero magnitude stands for zero either way).
    pub negative: bool,
    /// The absolute value.
    pub magnitude: BigNat,
}

impl View for BigInteger {
    type V = int;

    open spec fn view(&self) -> int {
        if self.negative {
            -(self.magnitude@ as int)
        } else {
            self.magnitude@ as int
        }
    }
}

/// `<< 1` on a `BigInt`: the number doubled.
#[verifier::external_body]
fn bigint_shl1(v: &BigInteger) -> (r: BigInteger)
    ensures
        r@ == 2 * v@,
{
    let sign = if v.negative { Sign::Minus } else { Sign::Plus };
    let x = BigInt::from_biguint(sign, BigUint::from_slice(&v.magnitude.digits)) << 1_u32;
    let (sign, data) = x.into_parts();
    BigInteger { negative: sign == Sign::Minus, magnitude: BigNat { digits: data.to_u32_digits() } }
}

/// `>>` on a `BigInt`, which rounds towards negative infinity: the number divided by `2^n`,
/// rounded down.
#[verifier::external_body]
fn bigint_shr(v: &BigInteger, n: u64) -> (r: BigInteger)
    ensures
        r@ == v@ / (pow2(n as nat) as int),
{
    let sign = if v.negative { Sign::Minus } else { Sign::Plus };
    let x = BigInt::from_biguint(sign, BigUint::from_slice(&v.magnitude.digits)) >> n;
    let (sign, data) = x.into_parts();
    BigInteger { negative: sign == Sign::Minus, magnitude: BigNat { digits: data.to_u32_digits() } }
}

/// `^` on two `BigInt`s, in two's complement, with a second operand of all zero or all one bits:
/// the first number itself, or its bitwise complement `-a - 1`.
#[verifier::external_body]
fn bigint_xor(a: &BigInteger, b: &BigInteger) -> (r: BigInteger)
    requires
        b@ == 0 || b@ == -1,
    ensures
        r@ == (if b@ == 0 {
            a@
        } else {
            -a@ - 1
        }),
{
    let sa = if a.negative { Sign::Minus } else { Sign::Plus };
    let sb = if b.negative { Sign::Minus } else { Sign::Plus };
    let x = BigInt::from_biguint(sa, BigUint::from_slice(&a.magnitude.digits))
        ^ BigInt::from_biguint(sb, BigUint::from_slice(&b.magnitude.digits));
    let (sign, data) = x.into_parts();
    BigInteger { negative: sign == Sign::Minus, magnitude: BigNat { digits: data.to_u32_digits() } }
}

/// `BigInt::to_biguint`: the number where it is not negative.
#[verifier::external_body]
fn bigint_to_biguint(v: &BigInteger) -> (r: Option<BigNat>)
    ensures
        match r {
            Some(n) => v@ >= 0 && n@ == v@,
            None => v@ < 0,
        },
{
    let sign = if v.negative { Sign::Minus } else { Sign::Plus };
    let x = BigInt::from_biguint(sign, BigUint::from_slice(&v.magnitude.digits));
    x.to_biguint().map(|data| BigNat { digits: data.to_u32_digits() })
}

/// `& BigUint::one()`: the lowest bit of the number.
#[verifier::external_body]
fn big_low_bit(d: &[u32]) -> (r: Vec<u32>)
    ensures
        digits_value(r@) == digits_value(d@) % 2,
{
    (BigUint::from_slice(d) & BigUint::from(1_u32)).to_u32_digits()
}

/// A number is below two to the power of its count of binary digits.
proof fn lemma_bit_len_bound(m: nat)
    ensures
        m < pow2(bit_len(m)),
    decreases m,
{
    lemma2_to64();
    if m > 0 {
        lemma_bit_len_bound(m / 2);
        lemma_pow2_unfold(bit_len(m));
    }
}

/// Use the _ZigZag_ scheme to encode a signed integer of any size as an unsigned one.
pub fn zigzag_encode_ibig(value: &BigInteger) -> (r: BigNat)
    ensures
        r@ == zigzag(value@),
{
    let bits = big_bits(value.magnitude.digits.as_slice());
    let doubled = bigint_shl1(value);
    let sign = bigint_shr(value, bits);
    proof {
        let m = value.magnitude@;
        let p = pow2(bits as nat) as int;
        lemma_bit_len_bound(m);
        lemma_pow2_pos(bits as nat);
        if value@ >= 0 {
            lemma_fundamental_div_mod_converse(value@, p, 0, value@);
        } else {
            lemma_fundamental_div_mod_converse(value@, p, -1, p - m);
        }
    }
    let mixed = bigint_xor(&doubled, &sign);
    match bigint_to_biguint(&mixed) {
        Some(n) => n,
        None => {
            proof {
                assert(false);
            }
            BigNat { digits: Vec::new() }
        },
    }
}

/// Convert a _ZigZag_ encoded unsigned integer of any size back to its original signed value.
pub fn zigzag_decode_ibig(value: &BigNat) -> (r: BigInteger)
    ensures
        r@ == unzigzag(value@),
{
    let half = BigInteger {
        negative: false,
        magnitude: BigNat { digits: big_shr(value.digits.as_slice(), 1) },
    };
    let low = BigNat { digits: big_low_bit(value.digits.as_slice()) };
    let mask = BigInteger { negative: true, magnitude: low };
    proof {
        lemma2_to64();
        assert(pow2(1) == 2);
    }
    bigint_xor(&half, &mask)
}

/// Encode a signed integer of any size as _Varint_, after mapping it with _ZigZag_.
pub fn encode_ibig(value: &BigInteger) -> (r: Vec<u8>)
    requires
        (bit_len(zigzag(value@)) + 6) / 7 <= usize::MAX,
    ensures
        r@ == spec_encode(zigzag(value@)),
{
    encode_ubig(&zigzag_encode_ibig(value))
}

/// Decode a _Varint_ back to a signed integer of any size, with the count of bytes it takes.
///
/// # Errors
///
/// Will return `Err` if the raw bytes don't contain an end marker.
pub fn decode_ibig(buf: &[u8]) -> (r: Result<(BigInteger, usize), DecodeIntError>)
    requires
        buf@.len() <= usize::MAX / 7,
    ensures
        match r {
            Ok((value, n)) => exists|u: nat|
                spec_decode(buf@, buf@.len()) == Some((u, n as nat)) && value@ == unzigzag(u),
            Err(_) => spec_decode(buf@, buf@.len()) is None,
        },
{
    match decode_ubig(buf) {
        Ok((v, b)) => Ok((zigzag_decode_ibig(&v), b)),
        Err(e) => Err(e),
    }
}

/// Calculate the byte size of a signed integer of any size encoded as _Varint_.
pub fn size_ibig(value: &BigInteger) -> (r: usize)
    requires
        (bit_len(zigzag(value@)) + 6) / 7 <= usize::MAX,
    ensures
        r == spec_encode(zigzag(value@)).len(),
{
    size_ubig(&zigzag_encode_ibig(value))
}

/// Decoding reads back what encoding wrote: the _Varint_ of a signed integer of any size (through
/// _ZigZag_), followed by any other bytes, decodes to that integer.
pub proof fn law_ibig_roundtrip(v: int, rest: Seq<u8>)
    ensures
        spec_decode(spec_encode(zigzag(v)) + rest, (spec_encode(zigzag(v)) + rest).len()) == Some(
            (zigzag(v), spec_encode(zigzag(v)).len()),
        ),
        unzigzag(zigzag(v)) == v,
{
    law_ubig_roundtrip(zigzag(v), rest);
    law_zigzag_roundtrip(v);
}

} // verus!
