//! Byte sizes of encoded values, calculated without encoding them.

use super::encode::{wire_bytes, wire_field_id, wire_string};
use crate::varint::{self, spec_encode, zigzag};
use crate::{bytes_as_slice, bytes_content, encoding_code, FieldEncoding, FieldId};
use vstd::prelude::*;
use vstd::std_specs::iter::IteratorSpec;

verus! {

/// Sum of a sequence of sizes.
pub open spec fn sum_sizes(rs: Seq<usize>) -> nat
    decreases rs.len(),
{
    if rs.len() == 0 {
        0
    } else {
        sum_sizes(rs.drop_last()) + rs.last() as nat
    }
}

/// `rs` is a possible list of results of `size` for the `items`, one by one.
pub open spec fn sizes_of<T, S: Fn(&T) -> usize>(size: S, items: Seq<T>, rs: Seq<usize>) -> bool {
    &&& rs.len() == items.len()
    &&& forall|i: int| 0 <= i < items.len() ==> size.ensures((&items[i],), #[trigger] rs[i])
}

/// Every partial sum of the sizes of `items`, on top of `base`, fits in a `usize`.
pub open spec fn sizes_fit<T, S: Fn(&T) -> usize>(size: S, items: Seq<T>, base: nat) -> bool {
    forall|k: int, rs: Seq<usize>|
        0 <= k <= items.len() && #[trigger] sizes_of(size, items.take(k), rs) ==> base + sum_sizes(
            rs,
        ) <= usize::MAX
}

/// Calculate the size of a Mabo `bool`, which is always 1 byte.
pub fn size_bool(value: bool) -> (r: usize)
    ensures
        r == 1,
{
    1
}

/// Calculate the size of a Mabo `u8`, which is always 1 byte.
pub fn size_u8(value: u8) -> (r: usize)
    ensures
        r == 1,
{
    1
}

/// Calculate the size of a Mabo `i8`, which is always 1 byte.
pub fn size_i8(value: i8) -> (r: usize)
    ensures
        r == 1,
{
    1
}

/// Calculate the size of a Mabo `u16` integer, which varies as it is encoded as a _Varint_.
pub fn size_u16(value: u16) -> (r: usize)
    ensures
        r == spec_encode(value as nat).len(),
{
    varint::size_u16(value)
}

/// Calculate the size of a Mabo `u32` integer, which varies as it is encoded as a _Varint_.
pub fn size_u32(value: u32) -> (r: usize)
    ensures
        r == spec_encode(value as nat).len(),
{
    varint::size_u32(value)
}

/// Calculate the size of a Mabo `u64` integer, which varies as it is encoded as a _Varint_.
pub fn size_u64(value: u64) -> (r: usize)
    ensures
        r == spec_encode(value as nat).len(),
        r <= 10,
{
    varint::size_u64(value)
}

/// Calculate the size of a Mabo `u128` integer, which varies as it is encoded as a _Varint_.
pub fn size_u128(value: u128) -> (r: usize)
    ensures
        r == spec_encode(value as nat).len(),
{
    varint::size_u128(value)
}

/// Calculate the size of a Mabo `i16` integer, which varies as it is encoded as a _Varint_.
pub fn size_i16(value: i16) -> (r: usize)
    ensures
        r == spec_encode(zigzag(value as int)).len(),
{
    varint::size_i16(value)
}

/// Calculate the size of a Mabo `i32` integer, which varies as it is encoded as a _Varint_.
pub fn size_i32(value: i32) -> (r: usize)
    ensures
        r == spec_encode(zigzag(value as int)).len(),
{
    varint::size_i32(value)
}

/// Calculate the size of a Mabo `i64` integer, which varies as it is encoded as a _Varint_.
pub fn size_i64(value: i64) -> (r: usize)
    ensures
        r == spec_encode(zigzag(value as int)).len(),
{
    varint::size_i64(value)
}

/// Calculate the size of a Mabo `i128` integer, which varies as it is encoded as a _Varint_.
pub fn size_i128(value: i128) -> (r: usize)
    ensures
        r == spec_encode(zigzag(value as int)).len(),
{
    varint::size_i128(value)
}

/// Calculate the size of a Mabo `bytes` raw byte array (represented as default Rust byte slice).
pub fn size_bytes_std(value: &[u8]) -> (r: usize)
    requires
        value@.len() + 10 <= usize::MAX,
    ensures
        r == wire_bytes(value@).len(),
{
    size_u64(value.len() as u64) + value.len()
}

/// Calculate the size of a Mabo `bytes` raw byte array (represented as a `bytes::Bytes` buffer).
pub fn size_bytes_bytes(value: &bytes::Bytes) -> (r: usize)
    requires
        bytes_content(*value).len() + 10 <= usize::MAX,
    ensures
        r == wire_bytes(bytes_content(*value)).len(),
{
    size_bytes_std(bytes_as_slice(value))
}

/// Calculate the size of a UTF-8 encoded Mabo `string`.
pub fn size_string(value: &str) -> (r: usize)
    requires
        vstd::utf8::encode_utf8(value@).len() + 10 <= usize::MAX,
    ensures
        r == wire_string(value@).len(),
{
    size_bytes_std(value.as_bytes())
}

/// Sum up the results of `size` for all `items`, on top of `base`.
fn sum_items<T, S: Fn(&T) -> usize>(items: &[T], size: &S, base: usize) -> (r: usize)
    requires
        forall|x: &T| size.requires((x,)),
        sizes_fit(*size, items@, base as nat),
    ensures
        exists|rs: Seq<usize>| sizes_of(*size, items@, rs) && r == base + sum_sizes(rs),
{
    let mut total = base;
    let mut i: usize = 0;
    let ghost mut rs: Seq<usize> = Seq::empty();
    proof {
        assert(sizes_of(*size, items@.take(0), rs));
    }
    while i < items.len()
        invariant
            forall|x: &T| size.requires((x,)),
            sizes_fit(*size, items@, base as nat),
            i <= items@.len(),
            sizes_of(*size, items@.take(i as int), rs),
            total == base + sum_sizes(rs),
        decreases items@.len() - i,
    {
        let s = size(&items[i]);
        let ghost next = rs.push(s);
        proof {
            assert(next.drop_last() =~= rs);
            assert forall|j: int| 0 <= j < i + 1 implies size.ensures(
                (&items@.take(i + 1)[j],),
                #[trigger] next[j],
            ) by {
                if j < i {
                    assert(items@.take(i + 1)[j] == items@.take(i as int)[j]);
                }
            }
            assert(sizes_of(*size, items@.take(i + 1), next));
        }
        total = total + s;
        proof {
            rs = next;
        }
        i = i + 1;
    }
    proof {
        assert(items@.take(i as int) =~= items@);
    }
    total
}

/// Every possible sum of the sizes of `items`, with the _Varint_ of that sum in front, fits in a
/// `usize`.
pub open spec fn total_fits<T, S: Fn(&T) -> usize>(size: S, items: Seq<T>) -> bool {
    forall|rs: Seq<usize>|
        #[trigger] sizes_of(size, items, rs) ==> spec_encode(sum_sizes(rs)).len() + sum_sizes(rs)
            <= usize::MAX
}

/// Calculate the size of a Mabo `vec<T>` vector value: the byte length of the elements (the sum
/// of the sizes that `size` reports for them) as _Varint_, plus that byte length.
pub fn size_vec<T, S: Fn(&T) -> usize>(vec: &[T], size: S) -> (r: usize)
    requires
        forall|x: &T| size.requires((x,)),
        sizes_fit(size, vec@, 0),
        total_fits(size, vec@),
    ensures
        exists|rs: Seq<usize>|
            sizes_of(size, vec@, rs) && r == spec_encode(sum_sizes(rs)).len() + sum_sizes(rs),
{
    let sum = sum_items(vec, &size, 0);
    let prefix = size_u64(sum as u64);
    prefix + sum
}

/// Calculate the size of a Mabo `[T; N]` array value: the byte length of the elements (the sum of
/// the sizes that `size` reports for them) as _Varint_, plus that byte length.
pub fn size_array<const N: usize, T, S: Fn(&T) -> usize>(array: &[T; N], size: S) -> (r: usize)
    requires
        forall|x: &T| size.requires((x,)),
        sizes_fit(size, array@, 0),
        total_fits(size, array@),
    ensures
        exists|rs: Seq<usize>|
            sizes_of(size, array@, rs) && r == spec_encode(sum_sizes(rs)).len() + sum_sizes(rs),
{
    let sum = sum_items(array.as_slice(), &size, 0);
    let prefix = size_u64(sum as u64);
    prefix + sum
}

/// `order` lists the elements of the set, each once: an order in which the set can be walked.
pub open spec fn walks_set<T>(set: Set<T>, order: Seq<T>) -> bool {
    &&& order.no_duplicates()
    &&& order.to_set() == set
    &&& order.len() == set.len()
}

/// Calculate the size of a Mabo `hash_set<T>` hash set value: the byte length of the elements
/// (the sum of the sizes that `size` reports for them) as _Varint_, plus that byte length.
pub fn size_hash_set<T: std::hash::Hash + Eq, S: Fn(&T) -> usize>(
    set: &std::collections::HashSet<T>,
    size: S,
) -> (r: usize)
    requires
        vstd::std_specs::hash::obeys_key_model::<T>(),
        forall|x: &T| size.requires((x,)),
        forall|order: Seq<T>|
            #[trigger] walks_set(set@, order) ==> sizes_fit(size, order, 0) && total_fits(
                size,
                order,
            ),
    ensures
        exists|order: Seq<T>, rs: Seq<usize>|
            walks_set(set@, order) && sizes_of(size, order, rs) && r == spec_encode(sum_sizes(rs)).len()
                + sum_sizes(rs),
{
    let base: usize = 0;
    let mut total = base;
    let ghost mut rs: Seq<usize> = Seq::empty();
    let ghost order = vstd::std_specs::hash::spec_hash_keys_iter(set).remaining().unref();
    proof {
        assert(walks_set(set@, order));
        assert(sizes_fit(size, order, 0) && total_fits(size, order));
        assert(sizes_of(size, order.take(0), rs));
    }
    for x in it: set.iter()
        invariant
            forall|x: &T| size.requires((x,)),
            sizes_fit(size, order, base as nat),
            total_fits(size, order),
            base == 0,
            order == it.seq().unref(),
            it.index() <= order.len(),
            sizes_of(size, order.take(it.index()), rs),
            total == base + sum_sizes(rs),
    {
        let s = size(x);
        let ghost i = it.index();
        let ghost next = rs.push(s);
        proof {
            lemma_sizes_push(size, order, rs, i, s);
            assert(next.drop_last() =~= rs);
            assert(sizes_of(size, order.take(i + 1), next));
        }
        total = total + s;
        proof {
            rs = next;
        }
    }
    proof {
        assert(order.take(order.len() as int) =~= order);
        assert(sizes_of(size, order, rs));
    }
    let prefix = size_u64(total as u64);
    prefix + total
}

/// One more size for the next item extends the sizes of the items before it.
pub proof fn lemma_sizes_push<T, S: Fn(&T) -> usize>(size: S, items: Seq<T>, rs: Seq<usize>, i: int, s: usize)
    requires
        0 <= i < items.len(),
        sizes_of(size, items.take(i), rs),
        size.ensures((&items[i],), s),
    ensures
        sizes_of(size, items.take(i + 1), rs.push(s)),
{
    let next = rs.push(s);
    assert(next.drop_last() =~= rs);
    assert forall|j: int| 0 <= j < i + 1 implies size.ensures(
        (&items.take(i + 1)[j],),
        #[trigger] next[j],
    ) by {
        if j < i {
            assert(items.take(i + 1)[j] == items.take(i)[j]);
        }
    }
}

/// `order` lists the entries of the map, each once: an order in which the map can be walked.
pub open spec fn walks_map<K, V>(map: Map<K, V>, order: Seq<(K, V)>) -> bool {
    &&& order.no_duplicates()
    &&& order.len() == map.dom().len()
    &&& forall|i: int|
        0 <= i < order.len() ==> map.contains_key(#[trigger] order[i].0) && map[order[i].0]
            == order[i].1
    &&& forall|k: K| #[trigger] map.contains_key(k) ==> order.contains((k, map[k]))
}

/// `n` is a possible size of an entry: what `size_key` reports for the key plus what
/// `size_value` reports for the value.
pub open spec fn entry_size<K, V, SK: Fn(&K) -> usize, SV: Fn(&V) -> usize>(
    size_key: SK,
    size_value: SV,
    entry: (K, V),
    n: nat,
) -> bool {
    exists|a: usize, b: usize|
        size_key.ensures((&entry.0,), a) && size_value.ensures((&entry.1,), b) && n == a + b
}

/// `ns` is a possible list of sizes of the `entries`, one by one.
pub open spec fn entry_sizes_of<K, V, SK: Fn(&K) -> usize, SV: Fn(&V) -> usize>(
    size_key: SK,
    size_value: SV,
    entries: Seq<(K, V)>,
    ns: Seq<nat>,
) -> bool {
    &&& ns.len() == entries.len()
    &&& forall|i: int|
        0 <= i < entries.len() ==> entry_size(size_key, size_value, entries[i], #[trigger] ns[i])
}

/// Sum of a sequence of numbers.
pub open spec fn sum_nats(ns: Seq<nat>) -> nat
    decreases ns.len(),
{
    if ns.len() == 0 {
        0
    } else {
        sum_nats(ns.drop_last()) + ns.last()
    }
}

/// Every partial sum of the sizes of `entries`, on top of `base`, fits in a `usize`.
pub open spec fn entry_sizes_fit<K, V, SK: Fn(&K) -> usize, SV: Fn(&V) -> usize>(
    size_key: SK,
    size_value: SV,
    entries: Seq<(K, V)>,
    base: nat,
) -> bool {
    forall|k: int, ns: Seq<nat>|
        0 <= k <= entries.len() && #[trigger] entry_sizes_of(
            size_key,
            size_value,
            entries.take(k),
            ns,
        ) ==> base + sum_nats(ns) <= usize::MAX
}

/// The entries that a walk over a map yields, as pairs of values.
pub open spec fn entries_of<'a, K, V>(walk: Seq<(&'a K, &'a V)>) -> Seq<(K, V)> {
    Seq::new(walk.len(), |i: int| (*walk[i].0, *walk[i].1))
}

/// Every possible sum of the sizes of `entries`, with the _Varint_ of that sum in front, fits in
/// a `usize`.
pub open spec fn entry_total_fits<K, V, SK: Fn(&K) -> usize, SV: Fn(&V) -> usize>(
    size_key: SK,
    size_value: SV,
    entries: Seq<(K, V)>,
) -> bool {
    forall|ns: Seq<nat>|
        #[trigger] entry_sizes_of(size_key, size_value, entries, ns) ==> spec_encode(sum_nats(ns)).len()
            + sum_nats(ns) <= usize::MAX
}

/// Calculate the size of a Mabo `hash_map<K, V>` hash map value: the byte length of the entries
/// (the sum of the sizes that `size_key` and `size_value` report for each key and value) as
/// _Varint_, plus that byte length.
pub fn size_hash_map<K: std::hash::Hash + Eq, V, SK: Fn(&K) -> usize, SV: Fn(&V) -> usize>(
    map: &std::collections::HashMap<K, V>,
    size_key: SK,
    size_value: SV,
) -> (r: usize)
    requires
        vstd::std_specs::hash::obeys_key_model::<K>(),
        forall|x: &K| size_key.requires((x,)),
        forall|x: &V| size_value.requires((x,)),
        forall|order: Seq<(K, V)>|
            #[trigger] walks_map(map@, order) ==> entry_sizes_fit(size_key, size_value, order, 0)
                && entry_total_fits(size_key, size_value, order),
    ensures
        exists|order: Seq<(K, V)>, ns: Seq<nat>|
            walks_map(map@, order) && entry_sizes_of(size_key, size_value, order, ns) && r
                == spec_encode(sum_nats(ns)).len() + sum_nats(ns),
{
    let base: usize = 0;
    let mut total = base;
    let ghost mut ns: Seq<nat> = Seq::empty();
    let ghost walk = vstd::std_specs::hash::spec_hash_map_iter(map).remaining();
    let ghost order = entries_of(walk);
    let entries = map.iter();
    proof {
        lemma_walks_map(map, walk);
        assert(entry_sizes_of(size_key, size_value, order.take(0), ns));
    }
    for entry in it: entries
        invariant
            forall|x: &K| size_key.requires((x,)),
            forall|x: &V| size_value.requires((x,)),
            entry_sizes_fit(size_key, size_value, order, base as nat),
            walk == it.seq(),
            order == entries_of(walk),
            it.index() <= order.len(),
            entry_sizes_of(size_key, size_value, order.take(it.index()), ns),
            total == base + sum_nats(ns),
    {
        let (key, value) = entry;
        let a = size_key(key);
        let b = size_value(value);
        let ghost i = it.index();
        let ghost next = ns.push((a + b) as nat);
        proof {
            assert(order[i] == (*key, *value));
            lemma_entry_sizes_push(size_key, size_value, order, ns, i, a, b);
            assert(next.drop_last() =~= ns);
            assert(entry_sizes_of(size_key, size_value, order.take(i + 1), next));
        }
        total = total + a + b;
        proof {
            ns = next;
        }
    }
    proof {
        assert(order.take(order.len() as int) =~= order);
    }
    let prefix = size_u64(total as u64);
    prefix + total
}

/// One more size for the next entry extends the sizes of the entries before it.
pub proof fn lemma_entry_sizes_push<K, V, SK: Fn(&K) -> usize, SV: Fn(&V) -> usize>(
    size_key: SK,
    size_value: SV,
    entries: Seq<(K, V)>,
    ns: Seq<nat>,
    i: int,
    a: usize,
    b: usize,
)
    requires
        0 <= i < entries.len(),
        entry_sizes_of(size_key, size_value, entries.take(i), ns),
        size_key.ensures((&entries[i].0,), a),
        size_value.ensures((&entries[i].1,), b),
    ensures
        entry_sizes_of(size_key, size_value, entries.take(i + 1), ns.push((a + b) as nat)),
{
    let next = ns.push((a + b) as nat);
    assert(next.drop_last() =~= ns);
    assert forall|j: int| 0 <= j < i + 1 implies entry_size(
        size_key,
        size_value,
        entries.take(i + 1)[j],
        #[trigger] next[j],
    ) by {
        if j < i {
            assert(entries.take(i + 1)[j] == entries.take(i)[j]);
        }
    }
}

/// A walk over a map yields every entry once.
pub proof fn lemma_walks_map<'a, K, V>(map: &'a std::collections::HashMap<K, V>, walk: Seq<(&'a K, &'a V)>)
    requires
        walk == vstd::std_specs::hash::spec_hash_map_iter(map).remaining(),
        walk.no_duplicates(),
    ensures
        walks_map(map@, entries_of(walk)),
{
    let order = entries_of(walk);
    assert forall|i: int, j: int| 0 <= i < order.len() && 0 <= j < order.len() && i != j implies order[i] != order[j] by {
        assert(walk[i] != walk[j]);
    }
    assert forall|k: K| #[trigger] map@.contains_key(k) implies order.contains((k, map@[k])) by {
        assert(walk.contains((&k, &map@[k])));
        let i = choose|i: int| 0 <= i < walk.len() && walk[i] == (&k, &map@[k]);
        assert(order[i] == (k, map@[k]));
    }
}

/// Calculate the size of a Mabo `option<T>` option value: one byte for the presence marker, plus
/// the size that `size` reports for a present value.
pub fn size_option<T, S: Fn(&T) -> usize>(option: Option<&T>, size: S) -> (r: usize)
    requires
        forall|x: &T| size.requires((x,)),
        forall|x: &T, n: usize| size.ensures((x,), n) ==> n < usize::MAX,
    ensures
        match option {
            Some(v) => exists|n: usize| size.ensures((v,), n) && r == 1 + n,
            None => r == 1,
        },
{
    match option {
        Some(v) => size_u8(0) + size(v),
        None => size_u8(0),
    }
}

/// Calculate the size of a Mabo field identifier.
pub fn size_field_id(id: u32) -> (r: usize)
    ensures
        r == spec_encode(((id as nat * 8) % 0x1_0000_0000) as nat).len(),
        r == wire_field_id(FieldId { value: id, encoding: FieldEncoding::Varint }).len(),
{
    let raw = id << 3;
    assert(raw == (id as nat * 8) % 0x1_0000_0000) by (bit_vector)
        requires
            raw == id << 3,
    ;
    size_u32(raw)
}

/// Calculate the size of a Mabo variant identifier.
pub fn size_variant_id(id: u32) -> (r: usize)
    ensures
        r == spec_encode(id as nat).len(),
{
    size_u32(id)
}

/// Calculate the size of a required Mabo struct or enum field: its identifier plus what `size`
/// reports.
pub fn size_field<S: Fn() -> usize>(id: u32, size: S) -> (r: usize)
    requires
        size.requires(()),
        forall|n: usize| size.ensures((), n) ==> n + 5 <= usize::MAX,
    ensures
        exists|n: usize|
            size.ensures((), n) && r == spec_encode(((id as nat * 8) % 0x1_0000_0000) as nat).len()
                + n,
{
    let id_size = size_field_id(id);
    proof {
        varint::lemma_encode_len_u32(((id as nat * 8) % 0x1_0000_0000) as u32);
    }
    id_size + size()
}

/// Calculate the size of an optional Mabo struct or enum field: nothing for `None`, otherwise its
/// identifier plus what `size` reports for the value.
pub fn size_field_option<T, S: Fn(&T) -> usize>(id: u32, option: Option<&T>, size: S) -> (r: usize)
    requires
        forall|x: &T| size.requires((x,)),
        forall|x: &T, n: usize| size.ensures((x,), n) ==> n + 5 <= usize::MAX,
    ensures
        match option {
            Some(v) => exists|n: usize|
                size.ensures((v,), n) && r == spec_encode(
                    ((id as nat * 8) % 0x1_0000_0000) as nat,
                ).len() + n,
            None => r == 0,
        },
{
    match option {
        Some(value) => {
            let id_size = size_field_id(id);
            proof {
                varint::lemma_encode_len_u32(((id as nat * 8) % 0x1_0000_0000) as u32);
            }
            id_size + size(value)
        },
        None => 0,
    }
}


/// The sum of the results of `size` for all `items`.
pub(crate) fn sum_items_public<T, S: Fn(&T) -> usize>(items: &[T], size: &S) -> (r: usize)
    requires
        forall|x: &T| size.requires((x,)),
        sizes_fit(*size, items@, 0),
    ensures
        exists|rs: Seq<usize>| sizes_of(*size, items@, rs) && r == sum_sizes(rs),
{
    sum_items(items, size, 0)
}

/// Values that are able to calculate their encoded byte size, without actually encoding.
pub trait Size {
    /// The byte size of the encoded value.
    spec fn encoded_size(&self) -> nat;

    /// Calculate the encoded byte size.
    fn size(&self) -> (r: usize)
        ensures
            r == self.encoded_size(),
    ;
}

impl Size for bool {
    open spec fn encoded_size(&self) -> nat {
        1
    }

    fn size(&self) -> (r: usize) {
        size_bool(*self)
    }
}

impl Size for u8 {
    open spec fn encoded_size(&self) -> nat {
        1
    }

    fn size(&self) -> (r: usize) {
        size_u8(*self)
    }
}

impl Size for i8 {
    open spec fn encoded_size(&self) -> nat {
        1
    }

    fn size(&self) -> (r: usize) {
        size_i8(*self)
    }
}

impl Size for u16 {
    open spec fn encoded_size(&self) -> nat {
        spec_encode(*self as nat).len()
    }

    fn size(&self) -> (r: usize) {
        size_u16(*self)
    }
}

impl Size for u32 {
    open spec fn encoded_size(&self) -> nat {
        spec_encode(*self as nat).len()
    }

    fn size(&self) -> (r: usize) {
        size_u32(*self)
    }
}

impl Size for u64 {
    open spec fn encoded_size(&self) -> nat {
        spec_encode(*self as nat).len()
    }

    fn size(&self) -> (r: usize) {
        size_u64(*self)
    }
}

impl Size for u128 {
    open spec fn encoded_size(&self) -> nat {
        spec_encode(*self as nat).len()
    }

    fn size(&self) -> (r: usize) {
        size_u128(*self)
    }
}

impl Size for i16 {
    open spec fn encoded_size(&self) -> nat {
        spec_encode(zigzag(*self as int)).len()
    }

    fn size(&self) -> (r: usize) {
        size_i16(*self)
    }
}

impl Size for i32 {
    open spec fn encoded_size(&self) -> nat {
        spec_encode(zigzag(*self as int)).len()
    }

    fn size(&self) -> (r: usize) {
        size_i32(*self)
    }
}

impl Size for i64 {
    open spec fn encoded_size(&self) -> nat {
        spec_encode(zigzag(*self as int)).len()
    }

    fn size(&self) -> (r: usize) {
        size_i64(*self)
    }
}

impl Size for i128 {
    open spec fn encoded_size(&self) -> nat {
        spec_encode(zigzag(*self as int)).len()
    }

    fn size(&self) -> (r: usize) {
        size_i128(*self)
    }
}

} // verus!
