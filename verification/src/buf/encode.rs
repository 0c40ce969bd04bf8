//! Encoders, which append the Mabo wire form of a value to a byte vector.

use crate::varint::{self, spec_encode, zigzag};
use super::size::{
    Size,
    entries_of, entry_sizes_fit, entry_sizes_of, lemma_entry_sizes_push, lemma_sizes_push,
    lemma_walks_map, sizes_fit, sizes_of, sum_nats, sum_sizes, walks_map, walks_set,
};
use crate::{bytes_as_slice, bytes_content, spec_field_id_u32, FieldId, VariantId};
use vstd::prelude::*;
use vstd::std_specs::iter::IteratorSpec;

verus! {

// ------------------------------------------------------------------------------------------------
// Wire forms
// ------------------------------------------------------------------------------------------------

/// Wire form of a `bool`: one byte, `1` for `true` and `0` for `false`.
pub open spec fn wire_bool(value: bool) -> Seq<u8> {
    seq![if value { 1u8 } else { 0u8 }]
}

/// Wire form of a byte array: its length as _Varint_, then the bytes themselves.
pub open spec fn wire_bytes(value: Seq<u8>) -> Seq<u8> {
    spec_encode(value.len()) + value
}

/// Wire form of a string: the byte array of its UTF-8 encoding.
pub open spec fn wire_string(value: Seq<char>) -> Seq<u8> {
    wire_bytes(vstd::utf8::encode_utf8(value))
}

/// Wire form of a field identifier: its raw `u32` as _Varint_.
pub open spec fn wire_field_id(id: FieldId) -> Seq<u8> {
    spec_encode(spec_field_id_u32(id) as nat)
}

/// Wire form of an enum variant identifier: its value as _Varint_.
pub open spec fn wire_variant_id(id: VariantId) -> Seq<u8> {
    spec_encode(id.value as nat)
}

// ------------------------------------------------------------------------------------------------
// Helpers
// ------------------------------------------------------------------------------------------------

/// Append all bytes of `value` to `w`.
fn put(w: &mut Vec<u8>, value: &[u8])
    ensures
        final(w)@ == old(w)@ + value@,
{
    let mut i: usize = 0;
    while i < value.len()
        invariant
            i <= value@.len(),
            w@ == old(w)@ + value@.take(i as int),
        decreases value@.len() - i,
    {
        w.push(value[i]);
        i = i + 1;
        proof {
            assert(value@.take(i as int) =~= value@.take(i - 1).push(value@[i - 1]));
        }
    }
    proof {
        assert(value@.take(i as int) =~= value@);
    }
}

/// Append the first `len` bytes of `buf` to `w`.
fn put_prefix(w: &mut Vec<u8>, buf: &[u8], len: usize)
    requires
        len <= buf@.len(),
    ensures
        final(w)@ == old(w)@ + buf@.take(len as int),
{
    put(w, vstd::slice::slice_subrange(buf, 0, len));
}

// ------------------------------------------------------------------------------------------------
// Fixed width values
// ------------------------------------------------------------------------------------------------

/// Encode a Mabo `bool` (`true` or `false`) value.
pub fn encode_bool(w: &mut Vec<u8>, value: bool)
    ensures
        final(w)@ == old(w)@ + wire_bool(value),
{
    w.push(if value { 1 } else { 0 });
    proof {
        assert(w@ =~= old(w)@ + wire_bool(value));
    }
}

/// Encode a Mabo `u8` integer.
pub fn encode_u8(w: &mut Vec<u8>, value: u8)
    ensures
        final(w)@ == old(w)@ + seq![value],
{
    w.push(value);
    proof {
        assert(w@ =~= old(w)@ + seq![value]);
    }
}

/// Encode a Mabo `i8` integer (its two's complement byte).
pub fn encode_i8(w: &mut Vec<u8>, value: i8)
    ensures
        final(w)@ == old(w)@ + seq![value as u8],
{
    w.push(value as u8);
    proof {
        assert(w@ =~= old(w)@ + seq![value as u8]);
    }
}

// ------------------------------------------------------------------------------------------------
// Variable width integers
// ------------------------------------------------------------------------------------------------

/// Encode a Mabo `u16` integer.
pub fn encode_u16(w: &mut Vec<u8>, value: u16)
    ensures
        final(w)@ == old(w)@ + spec_encode(value as nat),
{
    let (buf, len) = varint::encode_u16(value);
    proof {
        assert(buf@.take(len as int) =~= spec_encode(value as nat));
    }
    put_prefix(w, &buf, len);
}

/// Encode a Mabo `u32` integer.
pub fn encode_u32(w: &mut Vec<u8>, value: u32)
    ensures
        final(w)@ == old(w)@ + spec_encode(value as nat),
{
    let (buf, len) = varint::encode_u32(value);
    proof {
        assert(buf@.take(len as int) =~= spec_encode(value as nat));
    }
    put_prefix(w, &buf, len);
}

/// Encode a Mabo `u64` integer.
pub fn encode_u64(w: &mut Vec<u8>, value: u64)
    ensures
        final(w)@ == old(w)@ + spec_encode(value as nat),
{
    let (buf, len) = varint::encode_u64(value);
    proof {
        assert(buf@.take(len as int) =~= spec_encode(value as nat));
    }
    put_prefix(w, &buf, len);
}

/// Encode a Mabo `u128` integer.
pub fn encode_u128(w: &mut Vec<u8>, value: u128)
    ensures
        final(w)@ == old(w)@ + spec_encode(value as nat),
{
    let (buf, len) = varint::encode_u128(value);
    proof {
        assert(buf@.take(len as int) =~= spec_encode(value as nat));
    }
    put_prefix(w, &buf, len);
}

/// Encode a Mabo `i16` integer.
pub fn encode_i16(w: &mut Vec<u8>, value: i16)
    ensures
        final(w)@ == old(w)@ + spec_encode(zigzag(value as int)),
{
    let (buf, len) = varint::encode_i16(value);
    proof {
        assert(buf@.take(len as int) =~= spec_encode(zigzag(value as int)));
    }
    put_prefix(w, &buf, len);
}

/// Encode a Mabo `i32` integer.
pub fn encode_i32(w: &mut Vec<u8>, value: i32)
    ensures
        final(w)@ == old(w)@ + spec_encode(zigzag(value as int)),
{
    let (buf, len) = varint::encode_i32(value);
    proof {
        assert(buf@.take(len as int) =~= spec_encode(zigzag(value as int)));
    }
    put_prefix(w, &buf, len);
}

/// Encode a Mabo `i64` integer.
pub fn encode_i64(w: &mut Vec<u8>, value: i64)
    ensures
        final(w)@ == old(w)@ + spec_encode(zigzag(value as int)),
{
    let (buf, len) = varint::encode_i64(value);
    proof {
        assert(buf@.take(len as int) =~= spec_encode(zigzag(value as int)));
    }
    put_prefix(w, &buf, len);
}

/// Encode a Mabo `i128` integer.
pub fn encode_i128(w: &mut Vec<u8>, value: i128)
    ensures
        final(w)@ == old(w)@ + spec_encode(zigzag(value as int)),
{
    let (buf, len) = varint::encode_i128(value);
    proof {
        assert(buf@.take(len as int) =~= spec_encode(zigzag(value as int)));
    }
    put_prefix(w, &buf, len);
}

// ------------------------------------------------------------------------------------------------
// Byte arrays and strings
// ------------------------------------------------------------------------------------------------

/// Encode a Mabo `bytes` raw byte array (represented as default Rust byte slice).
pub fn encode_bytes_std(w: &mut Vec<u8>, value: &[u8])
    ensures
        final(w)@ == old(w)@ + wire_bytes(value@),
{
    encode_u64(w, value.len() as u64);
    put(w, value);
    proof {
        assert(w@ =~= old(w)@ + wire_bytes(value@));
    }
}

/// Encode a Mabo `bytes` raw byte array (represented as a `bytes::Bytes` buffer): its length as
/// _Varint_, then the bytes.
pub fn encode_bytes_bytes(w: &mut Vec<u8>, value: &bytes::Bytes)
    ensures
        final(w)@ == old(w)@ + wire_bytes(bytes_content(*value)),
{
    encode_bytes_std(w, bytes_as_slice(value));
}

/// Encode a UTF-8 encoded Mabo `string`.
pub fn encode_string(w: &mut Vec<u8>, value: &str)
    ensures
        final(w)@ == old(w)@ + wire_string(value@),
{
    encode_bytes_std(w, value.as_bytes());
}

// ------------------------------------------------------------------------------------------------
// Identifiers and fields
// ------------------------------------------------------------------------------------------------

/// Encode a Mabo field identifier.
pub fn encode_id(w: &mut Vec<u8>, id: FieldId)
    ensures
        final(w)@ == old(w)@ + wire_field_id(id),
{
    encode_u32(w, id.into_u32());
}

/// Encode a Mabo enum variant identifier.
pub fn encode_variant_id(w: &mut Vec<u8>, id: VariantId)
    ensures
        final(w)@ == old(w)@ + wire_variant_id(id),
{
    encode_u32(w, id.value);
}

/// Encode a required Mabo struct or enum field: its identifier, then whatever `encode` writes.
pub fn encode_field<E: Fn(&mut Vec<u8>)>(w: &mut Vec<u8>, id: FieldId, encode: E)
    requires
        forall|m: &mut Vec<u8>| encode.requires((m,)),
    ensures
        exists|m: &mut Vec<u8>|
            (*m)@ == old(w)@ + wire_field_id(id) && (*final(m))@ == final(w)@ && encode.ensures(
                (m,),
                (),
            ),
{
    encode_id(w, id);
    encode(w);
}

/// Encode an optional Mabo struct or enum field: nothing at all for `None`, otherwise the
/// identifier and whatever `encode` writes for the value.
pub fn encode_field_option<T, E: Fn(&mut Vec<u8>, &T)>(
    w: &mut Vec<u8>,
    id: FieldId,
    option: &Option<T>,
    encode: E,
)
    requires
        forall|m: &mut Vec<u8>, v: &T| encode.requires((m, v)),
    ensures
        match option {
            Some(v) => exists|m: &mut Vec<u8>|
                (*m)@ == old(w)@ + wire_field_id(id) && (*final(m))@ == final(w)@
                    && encode.ensures((m, v), ()),
            None => final(w)@ == old(w)@,
        },
{
    if let Some(value) = option {
        encode_id(w, id);
        encode(w, value);
    }
}

/// Encode a Mabo `option<T>` option value: a `1` byte followed by whatever `encode` writes for
/// the value, or a single `0` byte for `None`.
pub fn encode_option<T, E: Fn(&mut Vec<u8>, &T)>(w: &mut Vec<u8>, option: &Option<T>, encode: E)
    requires
        forall|m: &mut Vec<u8>, v: &T| encode.requires((m, v)),
    ensures
        match option {
            Some(v) => exists|m: &mut Vec<u8>|
                (*m)@ == old(w)@.push(1u8) && (*final(m))@ == final(w)@ && encode.ensures(
                    (m, v),
                    (),
                ),
            None => final(w)@ == old(w)@.push(0u8),
        },
{
    match option {
        Some(value) => {
            w.push(1);
            encode(w, value);
        },
        None => {
            w.push(0);
        },
    }
}

/// Encode a Mabo `(T1, T2, ...)` tuple value: the byte size that `size` reports as _Varint_,
/// then whatever `encode` writes.
pub fn encode_tuple<S: Fn() -> usize, E: Fn(&mut Vec<u8>)>(w: &mut Vec<u8>, size: S, encode: E)
    requires
        size.requires(()),
        forall|m: &mut Vec<u8>| encode.requires((m,)),
    ensures
        exists|n: usize, m: &mut Vec<u8>|
            size.ensures((), n) && (*m)@ == old(w)@ + spec_encode(n as nat) && (*final(m))@
                == final(w)@ && encode.ensures((m,), ()),
{
    let n = size();
    encode_u64(w, n as u64);
    encode(w);
}


/// Write every item with `encode`, one after the other; `states` are the buffer contents before
/// the first item and after each item.
fn encode_items<T, E: Fn(&mut Vec<u8>, &T)>(w: &mut Vec<u8>, items: &[T], encode: &E) -> (states:
    Ghost<Seq<Seq<u8>>>)
    requires
        forall|m: &mut Vec<u8>, x: &T| encode.requires((m, x)),
    ensures
        states@.len() == items@.len() + 1,
        states@[0] == old(w)@,
        states@.last() == final(w)@,
        forall|i: int|
            0 <= i < items@.len() ==> exists|m: &mut Vec<u8>|
                (*m)@ == #[trigger] states@[i] && (*final(m))@ == states@[i + 1] && encode.ensures(
                    (m, &items@[i]),
                    (),
                ),
{
    let ghost mut states: Seq<Seq<u8>> = seq![w@];
    let mut i: usize = 0;
    while i < items.len()
        invariant
            forall|m: &mut Vec<u8>, x: &T| encode.requires((m, x)),
            i <= items@.len(),
            states.len() == i + 1,
            states[0] == old(w)@,
            states.last() == w@,
            forall|j: int|
                0 <= j < i ==> exists|m: &mut Vec<u8>|
                    (*m)@ == #[trigger] states[j] && (*final(m))@ == states[j + 1]
                        && encode.ensures((m, &items@[j]), ()),
        decreases items@.len() - i,
    {
        encode(w, &items[i]);
        proof {
            let prev = states;
            states = states.push(w@);
            assert forall|j: int|
                0 <= j < i + 1 implies exists|m: &mut Vec<u8>|
                    (*m)@ == #[trigger] states[j] && (*final(m))@ == states[j + 1]
                        && encode.ensures((m, &items@[j]), ()) by {
                if j < i {
                    assert(states[j] == prev[j] && states[j + 1] == prev[j + 1]);
                }
            }
        }
        i = i + 1;
    }
    Ghost(states)
}

/// Encode a Mabo `vec<T>` vector value: the sum of the sizes that `size` reports for the elements
/// as _Varint_, then whatever `encode` writes for each element in turn.
pub fn encode_vec<T, S: Fn(&T) -> usize, E: Fn(&mut Vec<u8>, &T)>(
    w: &mut Vec<u8>,
    vec: &[T],
    size: S,
    encode: E,
)
    requires
        forall|x: &T| size.requires((x,)),
        forall|m: &mut Vec<u8>, x: &T| encode.requires((m, x)),
        sizes_fit(size, vec@, 0),
    ensures
        exists|rs: Seq<usize>, states: Seq<Seq<u8>>|
            {
                &&& sizes_of(size, vec@, rs)
                &&& states.len() == vec@.len() + 1
                &&& states[0] == old(w)@ + spec_encode(sum_sizes(rs))
                &&& states.last() == final(w)@
                &&& forall|i: int|
                    0 <= i < vec@.len() ==> exists|m: &mut Vec<u8>|
                        (*m)@ == #[trigger] states[i] && (*final(m))@ == states[i + 1]
                            && encode.ensures((m, &vec@[i]), ())
            },
{
    let total = super::size::sum_items_public(vec, &size);
    encode_u64(w, total as u64);
    let states = encode_items(w, vec, &encode);
}

/// Encode a Mabo `[T; N]` array value: the sum of the sizes that `size` reports for the elements
/// as _Varint_, then whatever `encode` writes for each element in turn.
pub fn encode_array<const N: usize, T, S: Fn(&T) -> usize, E: Fn(&mut Vec<u8>, &T)>(
    w: &mut Vec<u8>,
    array: &[T; N],
    size: S,
    encode: E,
)
    requires
        forall|x: &T| size.requires((x,)),
        forall|m: &mut Vec<u8>, x: &T| encode.requires((m, x)),
        sizes_fit(size, array@, 0),
    ensures
        exists|rs: Seq<usize>, states: Seq<Seq<u8>>|
            {
                &&& sizes_of(size, array@, rs)
                &&& states.len() == array@.len() + 1
                &&& states[0] == old(w)@ + spec_encode(sum_sizes(rs))
                &&& states.last() == final(w)@
                &&& forall|i: int|
                    0 <= i < array@.len() ==> exists|m: &mut Vec<u8>|
                        (*m)@ == #[trigger] states[i] && (*final(m))@ == states[i + 1]
                            && encode.ensures((m, &array@[i]), ())
            },
{
    encode_vec(w, array.as_slice(), size, encode);
}

/// Encode a Mabo `hash_set<T>` hash set value: the sum of the sizes that `size` reports for the
/// elements as _Varint_, then whatever `encode` writes for each element, in the order in which
/// the set is walked.
pub fn encode_hash_set<T: std::hash::Hash + Eq, S: Fn(&T) -> usize, E: Fn(&mut Vec<u8>, &T)>(
    w: &mut Vec<u8>,
    set: &std::collections::HashSet<T>,
    size: S,
    encode: E,
)
    requires
        vstd::std_specs::hash::obeys_key_model::<T>(),
        forall|x: &T| size.requires((x,)),
        forall|m: &mut Vec<u8>, x: &T| encode.requires((m, x)),
        forall|order: Seq<T>| walks_set(set@, order) ==> sizes_fit(size, order, 0),
    ensures
        exists|order: Seq<T>, rs: Seq<usize>, states: Seq<Seq<u8>>|
            {
                &&& walks_set(set@, order)
                &&& sizes_of(size, order, rs)
                &&& states.len() == order.len() + 1
                &&& states[0] == old(w)@ + spec_encode(sum_sizes(rs))
                &&& states.last() == final(w)@
                &&& forall|i: int|
                    0 <= i < order.len() ==> exists|m: &mut Vec<u8>|
                        (*m)@ == #[trigger] states[i] && (*final(m))@ == states[i + 1]
                            && encode.ensures((m, &order[i]), ())
            },
{
    let ghost order = vstd::std_specs::hash::spec_hash_keys_iter(set).remaining().unref();
    let mut total: usize = 0;
    let ghost mut rs: Seq<usize> = Seq::empty();
    proof {
        assert(walks_set(set@, order));
        assert(sizes_of(size, order.take(0), rs));
    }
    for x in it: set.iter()
        invariant
            forall|x: &T| size.requires((x,)),
            sizes_fit(size, order, 0),
            order == it.seq().unref(),
            it.index() <= order.len(),
            sizes_of(size, order.take(it.index()), rs),
            total == sum_sizes(rs),
    {
        let s = size(x);
        let ghost i = it.index();
        let ghost next = rs.push(s);
        proof {
            lemma_sizes_push(size, order, rs, i, s);
            assert(next.drop_last() =~= rs);
            assert(sizes_of(size, order.take(i + 1), next));
        }
        total = total + s;
        proof {
            rs = next;
        }
    }
    proof {
        assert(order.take(order.len() as int) =~= order);
    }
    encode_u64(w, total as u64);
    let ghost mut states: Seq<Seq<u8>> = seq![w@];
    let ghost start = w@;
    for x in it: set.iter()
        invariant
            forall|m: &mut Vec<u8>, x: &T| encode.requires((m, x)),
            order == it.seq().unref(),
            it.index() <= order.len(),
            states.len() == it.index() + 1,
            states[0] == start,
            states.last() == w@,
            forall|j: int|
                0 <= j < it.index() ==> exists|m: &mut Vec<u8>|
                    (*m)@ == #[trigger] states[j] && (*final(m))@ == states[j + 1]
                        && encode.ensures((m, &order[j]), ()),
    {
        let ghost i = it.index();
        encode(w, x);
        proof {
            let prev = states;
            states = states.push(w@);
            assert forall|j: int|
                0 <= j < i + 1 implies exists|m: &mut Vec<u8>|
                    (*m)@ == #[trigger] states[j] && (*final(m))@ == states[j + 1]
                        && encode.ensures((m, &order[j]), ()) by {
                if j < i {
                    assert(states[j] == prev[j] && states[j + 1] == prev[j + 1]);
                }
            }
        }
    }
}

/// Encode a Mabo `hash_map<K, V>` hash map value: the sum of the sizes that `size_key` and
/// `size_value` report for the keys and values as _Varint_, then for each entry, in the order in
/// which the map is walked, whatever `encode_key` writes for its key and `encode_value` for its
/// value.
pub fn encode_hash_map<
    K: std::hash::Hash + Eq,
    V,
    SK: Fn(&K) -> usize,
    SV: Fn(&V) -> usize,
    EK: Fn(&mut Vec<u8>, &K),
    EV: Fn(&mut Vec<u8>, &V),
>(
    w: &mut Vec<u8>,
    map: &std::collections::HashMap<K, V>,
    size_key: SK,
    size_value: SV,
    encode_key: EK,
    encode_value: EV,
)
    requires
        vstd::std_specs::hash::obeys_key_model::<K>(),
        forall|x: &K| size_key.requires((x,)),
        forall|x: &V| size_value.requires((x,)),
        forall|m: &mut Vec<u8>, x: &K| encode_key.requires((m, x)),
        forall|m: &mut Vec<u8>, x: &V| encode_value.requires((m, x)),
        forall|order: Seq<(K, V)>|
            walks_map(map@, order) ==> entry_sizes_fit(size_key, size_value, order, 0),
    ensures
        exists|order: Seq<(K, V)>, ns: Seq<nat>, states: Seq<Seq<u8>>|
            {
                &&& walks_map(map@, order)
                &&& entry_sizes_of(size_key, size_value, order, ns)
                &&& states.len() == 2 * order.len() + 1
                &&& states[0] == old(w)@ + spec_encode(sum_nats(ns))
                &&& states.last() == final(w)@
                &&& forall|i: int|
                    0 <= i < order.len() ==> exists|m: &mut Vec<u8>, n: &mut Vec<u8>|
                        (*m)@ == #[trigger] states[2 * i] && (*final(m))@ == states[2 * i + 1]
                            && encode_key.ensures((m, &order[i].0), ()) && (*n)@ == states[2 * i
                            + 1] && (*final(n))@ == states[2 * i + 2] && encode_value.ensures(
                            (n, &order[i].1),
                            (),
                        )
            },
{
    let ghost walk = vstd::std_specs::hash::spec_hash_map_iter(map).remaining();
    let ghost order = entries_of(walk);
    let mut total: usize = 0;
    let ghost mut ns: Seq<nat> = Seq::empty();
    let entries = map.iter();
    proof {
        lemma_walks_map(map, walk);
        assert(entry_sizes_of(size_key, size_value, order.take(0), ns));
    }
    for entry in it: entries
        invariant
            forall|x: &K| size_key.requires((x,)),
            forall|x: &V| size_value.requires((x,)),
            entry_sizes_fit(size_key, size_value, order, 0),
            walk == it.seq(),
            order == entries_of(walk),
            it.index() <= order.len(),
            entry_sizes_of(size_key, size_value, order.take(it.index()), ns),
            total == sum_nats(ns),
    {
        let (key, value) = entry;
        let a = size_key(key);
        let b = size_value(value);
        let ghost i = it.index();
        let ghost next = ns.push((a + b) as nat);
        proof {
            assert(order[i] == (*key, *value));
            lemma_entry_sizes_push(size_key, size_value, order, ns, i, a, b);
            assert(next.drop_last() =~= ns);
            assert(entry_sizes_of(size_key, size_value, order.take(i + 1), next));
        }
        total = total + a + b;
        proof {
            ns = next;
        }
    }
    proof {
        assert(order.take(order.len() as int) =~= order);
    }
    encode_u64(w, total as u64);
    let ghost mut states: Seq<Seq<u8>> = seq![w@];
    let ghost start = w@;
    let entries = map.iter();
    for entry in it: entries
        invariant
            forall|m: &mut Vec<u8>, x: &K| encode_key.requires((m, x)),
            forall|m: &mut Vec<u8>, x: &V| encode_value.requires((m, x)),
            walk == it.seq(),
            order == entries_of(walk),
            it.index() <= order.len(),
            states.len() == 2 * it.index() + 1,
            states[0] == start,
            states.last() == w@,
            forall|j: int|
                0 <= j < it.index() ==> exists|m: &mut Vec<u8>, n: &mut Vec<u8>|
                    (*m)@ == #[trigger] states[2 * j] && (*final(m))@ == states[2 * j + 1]
                        && encode_key.ensures((m, &order[j].0), ()) && (*n)@ == states[2 * j + 1]
                        && (*final(n))@ == states[2 * j + 2] && encode_value.ensures(
                        (n, &order[j].1),
                        (),
                    ),
    {
        let (key, value) = entry;
        let ghost i = it.index();
        proof {
            assert(order[i] == (*key, *value));
        }
        encode_key(w, key);
        let ghost middle = w@;
        encode_value(w, value);
        proof {
            let prev = states;
            states = states.push(middle).push(w@);
            assert forall|j: int|
                0 <= j < i + 1 implies exists|m: &mut Vec<u8>, n: &mut Vec<u8>|
                    (*m)@ == #[trigger] states[2 * j] && (*final(m))@ == states[2 * j + 1]
                        && encode_key.ensures((m, &order[j].0), ()) && (*n)@ == states[2 * j + 1]
                        && (*final(n))@ == states[2 * j + 2] && encode_value.ensures(
                        (n, &order[j].1),
                        (),
                    ) by {
                if j < i {
                    assert(states[2 * j] == prev[2 * j] && states[2 * j + 1] == prev[2 * j + 1]
                        && states[2 * j + 2] == prev[2 * j + 2]);
                }
            }
        }
    }
}


/// Values that can encode themselves in the Mabo format.
pub trait Encode: Size {
    /// The bytes that encoding the value writes.
    spec fn wire(&self) -> Seq<u8>;

    /// The encoded byte size that [`Size`] reports is the count of the bytes written.
    proof fn lemma_wire_size(&self)
        ensures
            self.wire().len() == self.encoded_size(),
    ;

    /// Write the encoded data in the provided buffer.
    fn encode(&self, w: &mut Vec<u8>)
        ensures
            final(w)@ == old(w)@ + self.wire(),
    ;
}

impl Encode for bool {
    open spec fn wire(&self) -> Seq<u8> {
        wire_bool(*self)
    }

    proof fn lemma_wire_size(&self) {
    }

    fn encode(&self, w: &mut Vec<u8>) {
        encode_bool(w, *self);
    }
}

impl Encode for u8 {
    open spec fn wire(&self) -> Seq<u8> {
        seq![*self]
    }

    proof fn lemma_wire_size(&self) {
    }

    fn encode(&self, w: &mut Vec<u8>) {
        encode_u8(w, *self);
    }
}

impl Encode for i8 {
    open spec fn wire(&self) -> Seq<u8> {
        seq![*self as u8]
    }

    proof fn lemma_wire_size(&self) {
    }

    fn encode(&self, w: &mut Vec<u8>) {
        encode_i8(w, *self);
    }
}

impl Encode for u16 {
    open spec fn wire(&self) -> Seq<u8> {
        spec_encode(*self as nat)
    }

    proof fn lemma_wire_size(&self) {
    }

    fn encode(&self, w: &mut Vec<u8>) {
        encode_u16(w, *self);
    }
}

impl Encode for u32 {
    open spec fn wire(&self) -> Seq<u8> {
        spec_encode(*self as nat)
    }

    proof fn lemma_wire_size(&self) {
    }

    fn encode(&self, w: &mut Vec<u8>) {
        encode_u32(w, *self);
    }
}

impl Encode for u64 {
    open spec fn wire(&self) -> Seq<u8> {
        spec_encode(*self as nat)
    }

    proof fn lemma_wire_size(&self) {
    }

    fn encode(&self, w: &mut Vec<u8>) {
        encode_u64(w, *self);
    }
}

impl Encode for u128 {
    open spec fn wire(&self) -> Seq<u8> {
        spec_encode(*self as nat)
    }

    proof fn lemma_wire_size(&self) {
    }

    fn encode(&self, w: &mut Vec<u8>) {
        encode_u128(w, *self);
    }
}

impl Encode for i16 {
    open spec fn wire(&self) -> Seq<u8> {
        spec_encode(zigzag(*self as int))
    }

    proof fn lemma_wire_size(&self) {
    }

    fn encode(&self, w: &mut Vec<u8>) {
        encode_i16(w, *self);
    }
}

impl Encode for i32 {
    open spec fn wire(&self) -> Seq<u8> {
        spec_encode(zigzag(*self as int))
    }

    proof fn lemma_wire_size(&self) {
    }

    fn encode(&self, w: &mut Vec<u8>) {
        encode_i32(w, *self);
    }
}

impl Encode for i64 {
    open spec fn wire(&self) -> Seq<u8> {
        spec_encode(zigzag(*self as int))
    }

    proof fn lemma_wire_size(&self) {
    }

    fn encode(&self, w: &mut Vec<u8>) {
        encode_i64(w, *self);
    }
}

impl Encode for i128 {
    open spec fn wire(&self) -> Seq<u8> {
        spec_encode(zigzag(*self as int))
    }

    proof fn lemma_wire_size(&self) {
    }

    fn encode(&self, w: &mut Vec<u8>) {
        encode_i128(w, *self);
    }
}

} // verus!
