//! _Varint_ en- and decoding in the style of the `postcard` format, writing into and reading from
//! caller-provided byte slices.

use crate::varint::{
    self, groups_value, modulus_u128, spec_decode, spec_encode, unzigzag, zigzag,
};
use vstd::prelude::*;

verus! {

/// The count of bytes that `encode` may write at most.
pub open spec fn max_bytes() -> nat {
    19
}

/// Encode `value` as _Varint_ into the start of `buf`. If `buf` is shorter than the encoding,
/// only the bytes that fit are written.
pub fn encode(value: u128, buf: &mut [u8])
    ensures
        final(buf)@.len() == old(buf)@.len(),
        ({
            let e = spec_encode(value as nat);
            let k = if e.len() <= old(buf)@.len() {
                e.len()
            } else {
                old(buf)@.len()
            };
            final(buf)@ == e.take(k as int) + old(buf)@.skip(k as int)
        }),
{
    proof {
        varint::lemma_encode_len_u128(value as nat);
    }
    let mut value = value;
    let mut i: usize = 0;
    let ghost whole = spec_encode(value as nat);
    loop
        invariant_except_break
            buf@.len() == old(buf)@.len(),
            i <= buf@.len(),
            spec_encode(value as nat).len() >= 1,
            i + spec_encode(value as nat).len() == whole.len(),
            whole.len() <= 19,
            whole == buf@.take(i as int) + spec_encode(value as nat),
            buf@.skip(i as int) == old(buf)@.skip(i as int),
        ensures
            buf@.len() == old(buf)@.len(),
            ({
                let k = if whole.len() <= old(buf)@.len() {
                    whole.len()
                } else {
                    old(buf)@.len()
                };
                buf@ == whole.take(k as int) + old(buf)@.skip(k as int)
            }),
        decreases buf@.len() - i,
    {
        if i >= buf.len() {
            proof {
                assert(buf@ =~= buf@.take(i as int));
                assert(old(buf)@.skip(i as int) =~= Seq::<u8>::empty());
                assert(whole.take(i as int) =~= buf@.take(i as int));
                assert(buf@ =~= whole.take(i as int) + old(buf)@.skip(i as int));
            }
            break;
        }
        proof {
            varint::lemma_encode_shape(value as nat);
        }
        let b = value as u8;
        let ghost prev = buf@;
        if value < 128 {
            assert(value < 128 ==> value as u8 == value) by (bit_vector);
            buf[i] = b;
            proof {
                assert(spec_encode(value as nat) =~= seq![value as u8]);
                assert(buf@.take(i + 1) =~= prev.take(i as int) + seq![b]);
                assert(whole =~= buf@.take(i + 1));
                assert forall|k: int| 0 <= k < buf@.len() - (i + 1) implies #[trigger] buf@.skip(
                    i + 1,
                )[k] == old(buf)@.skip(i + 1)[k] by {
                    assert(prev.skip(i as int)[k + 1] == old(buf)@.skip(i as int)[k + 1]);
                }
                assert(buf@ =~= buf@.take(i + 1) + buf@.skip(i + 1));
                assert(whole.take(whole.len() as int) =~= whole);
                assert(buf@ =~= whole.take(whole.len() as int) + old(buf)@.skip(
                    whole.len() as int,
                ));
            }
            break;
        }
        let c = b | 0x80;
        assert(c == (value % 128 + 128) as u8) by (bit_vector)
            requires
                b == value as u8,
                c == b | 0x80,
        ;
        assert(value >> 7u128 == value / 128) by (bit_vector);
        buf[i] = c;
        proof {
            assert(spec_encode(value as nat) =~= seq![c] + spec_encode((value / 128) as nat));
            assert(buf@.take(i + 1) =~= prev.take(i as int) + seq![c]);
            assert forall|k: int| 0 <= k < buf@.skip(i + 1).len() implies #[trigger] buf@.skip(
                i + 1,
            )[k] == old(buf)@.skip(i + 1)[k] by {
                assert(prev.skip(i as int)[k + 1] == old(buf)@.skip(i as int)[k + 1]);
            }
            assert(buf@.skip(i + 1) =~= old(buf)@.skip(i + 1));
        }
        proof {
            varint::lemma_encode_shape((value / 128) as nat);
        }
        value = value >> 7;
        i = i + 1;
    }
}

/// Encode an `i128` as _Varint_ of its _ZigZag_ form into the start of `buf`. If `buf` is
/// shorter than the encoding, only the bytes that fit are written.
pub fn encode_i128(value: i128, buf: &mut [u8])
    ensures
        final(buf)@.len() == old(buf)@.len(),
        ({
            let e = spec_encode(zigzag(value as int));
            let k = if e.len() <= old(buf)@.len() {
                e.len()
            } else {
                old(buf)@.len()
            };
            final(buf)@ == e.take(k as int) + old(buf)@.skip(k as int)
        }),
{
    encode(encode_zigzag(value), buf);
}

/// Use the _ZigZag_ scheme to encode an `i128` as `u128`.
pub fn encode_zigzag(value: i128) -> (r: u128)
    ensures
        r == zigzag(value as int),
{
    varint::zigzag_encode_i128(value)
}

/// Decode a _Varint_ from the start of `buf` back to a `u128`. The input must hold a _Varint_
/// that ends within its first 19 bytes (otherwise this panics with "bad input").
pub fn decode(buf: &[u8]) -> (r: u128)
    requires
        spec_decode(buf@, max_bytes()).is_some(),
    ensures
        r == spec_decode(buf@, max_bytes()).unwrap().0 % modulus_u128(),
{
    match varint::read_varint(buf, 19) {
        Ok((value, _)) => value,
        Err(_) => {
            proof {
                assert(false);
            }
            0
        },
    }
}

/// Decode a _Varint_ from the start of `buf` back to an `i128`, undoing the _ZigZag_ mapping.
pub fn decode_i128(buf: &[u8]) -> (r: i128)
    requires
        spec_decode(buf@, max_bytes()).is_some(),
    ensures
        r == unzigzag(spec_decode(buf@, max_bytes()).unwrap().0 % modulus_u128()),
{
    decode_zigzag(decode(buf))
}

/// Convert a _ZigZag_ encoded `u128` back to its original `i128`.
pub fn decode_zigzag(value: u128) -> (r: i128)
    ensures
        r == unzigzag(value as nat),
{
    varint::zigzag_decode_i128(value)
}

/// What `encode` writes, `decode` reads back, in a buffer that has room for the encoding.
pub proof fn law_roundtrip(value: u128, buf: Seq<u8>)
    requires
        buf.len() >= max_bytes(),
    ensures
        ({
            let e = spec_encode(value as nat);
            let written = e + buf.skip(e.len() as int);
            &&& spec_decode(written, max_bytes()) == Some((value as nat, e.len()))
            &&& value as nat % modulus_u128() == value
        }),
{
    varint::law_roundtrip_u128(value, buf.skip(spec_encode(value as nat).len() as int));
}

/// What `encode_i128` writes, `decode_i128` reads back, in a buffer that has room for the
/// encoding.
pub proof fn law_roundtrip_i128(value: i128, buf: Seq<u8>)
    requires
        buf.len() >= max_bytes(),
    ensures
        ({
            let e = spec_encode(zigzag(value as int));
            let written = e + buf.skip(e.len() as int);
            &&& spec_decode(written, max_bytes()) == Some((zigzag(value as int), e.len()))
            &&& unzigzag(zigzag(value as int) % modulus_u128()) == value
        }),
{
    varint::law_roundtrip_i128(value, buf.skip(spec_encode(zigzag(value as int)).len() as int));
}

} // verus!
