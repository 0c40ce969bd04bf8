//! Uniqueness of identifiers: enum variants within their enum, fields within their struct or
//! variant.

use super::{
    all_distinct, assigned, distinct_before, explicit_id, find_repeat_ids, first_repeat, ids_in_range,
    lemma_assigned_prefix, lemma_repeat_transfer, IdGenerator,
};
use crate::parser::{Enum, Fields, Id, NamedField, Span, Spanned, Struct, UnnamedField, Variant};
use std::ops::Range;
use vstd::prelude::*;

verus! {

/// Duplicate ID was encountered for two elements in the same scope.
#[derive(Debug)]
pub enum DuplicateId {
    /// Two enum variants use the same ID.
    EnumVariant(DuplicateVariantId),
    /// Two fields use the same ID.
    Field(DuplicateFieldId),
}

/// Duplicate ID for enum variants.
#[derive(Debug)]
pub struct DuplicateVariantId {
    /// The duplicate ID.
    pub id: Id,
    /// Name of the variant that tries to use the same ID again.
    pub name: String,
    /// Name of the variant that used the ID for the first time.
    pub other_name: String,
    /// Where the ID was first declared.
    pub first: Range<usize>,
    /// Where the ID is used again.
    pub second: Range<usize>,
}

/// Duplicate ID for fields of a struct or enum variant.
#[derive(Debug)]
pub enum DuplicateFieldId {
    /// Found duplicate IDs in named fields.
    Named(DuplicateNamedFieldId),
    /// Found duplicate IDs in **un**named fields.
    Unnamed(DuplicateUnnamedFieldId),
}

/// Duplicate ID for named fields.
#[derive(Debug)]
pub struct DuplicateNamedFieldId {
    /// The duplicate ID.
    pub id: Id,
    /// Name of the field that tries to use the same ID again.
    pub name: String,
    /// Name of the field that used the ID for the first time.
    pub other_name: String,
    /// Where the ID was first declared.
    pub first: Range<usize>,
    /// Where the ID is used again.
    pub second: Range<usize>,
}

/// Duplicate ID for unnamed fields.
#[derive(Debug)]
pub struct DuplicateUnnamedFieldId {
    /// The duplicate ID.
    pub id: Id,
    /// 1-based position of the field that tries to use the same ID again.
    pub position: usize,
    /// 1-base position of the field that used the ID for the first time.
    pub other_position: usize,
    /// Where the ID was first declared.
    pub first: Range<usize>,
    /// Where the ID is used again.
    pub second: Range<usize>,
}

// ------------------------------------------------------------------------------------------------
// Model
// ------------------------------------------------------------------------------------------------

/// The explicit identifiers of named fields, in order.
pub open spec fn named_ids(fields: Seq<NamedField>) -> Seq<Option<u32>> {
    fields.map_values(|f: NamedField| explicit_id(f.id))
}

/// The explicit identifiers of unnamed fields, in order.
pub open spec fn unnamed_ids(fields: Seq<UnnamedField>) -> Seq<Option<u32>> {
    fields.map_values(|f: UnnamedField| explicit_id(f.id))
}

/// The explicit identifiers of enum variants, in order.
pub open spec fn variant_ids(variants: Seq<Variant>) -> Seq<Option<u32>> {
    variants.map_values(|v: Variant| explicit_id(v.id))
}

/// Where the identifier of an element is located: the explicit identifier, or the whole element
/// where it was omitted.
pub open spec fn id_location(id: Option<Id>, element: Span) -> Span {
    match id {
        Some(i) => i.spec_span(),
        None => element,
    }
}

/// The range of offsets of a span.
pub open spec fn span_range(span: Span) -> Range<usize> {
    span.start..span.end
}

/// The identifiers of the fields can be assigned without overflowing.
pub open spec fn fields_in_range(fields: Fields) -> bool {
    match fields {
        Fields::Named(_, named) => ids_in_range(named_ids(named.items())),
        Fields::Unnamed(_, unnamed) => ids_in_range(unnamed_ids(unnamed.items())),
        Fields::Unit => true,
    }
}

/// The assigned identifiers of the fields are unique.
pub open spec fn fields_ids_unique(fields: Fields) -> bool {
    match fields {
        Fields::Named(_, named) => all_distinct(assigned(named_ids(named.items()))),
        Fields::Unnamed(_, unnamed) => all_distinct(assigned(unnamed_ids(unnamed.items()))),
        Fields::Unit => true,
    }
}

/// `e` describes the first repeated identifier among the fields: the field at position `j` reuses
/// the identifier of the field at position `i`.
pub open spec fn fields_ids_error(fields: Fields, e: DuplicateFieldId) -> bool {
    match fields {
        Fields::Named(_, named) => {
            let items = named.items();
            let ids = assigned(named_ids(items));
            exists|i: int, j: int|
                #![trigger ids[i], ids[j]]
                first_repeat(ids, i, j) && match e {
                    DuplicateFieldId::Named(d) => {
                        &&& d.id.spec_get() == ids[j]
                        &&& d.id.spec_span() == id_location(items[j].id, items[j].span)
                        &&& d.name@ == items[j].name.spec_get()
                        &&& d.other_name@ == items[i].name.spec_get()
                        &&& d.first == span_range(id_location(items[i].id, items[i].span))
                        &&& d.second == span_range(id_location(items[j].id, items[j].span))
                    },
                    DuplicateFieldId::Unnamed(_) => false,
                }
        },
        Fields::Unnamed(_, unnamed) => {
            let items = unnamed.items();
            let ids = assigned(unnamed_ids(items));
            exists|i: int, j: int|
                #![trigger ids[i], ids[j]]
                first_repeat(ids, i, j) && match e {
                    DuplicateFieldId::Unnamed(d) => {
                        &&& d.id.spec_get() == ids[j]
                        &&& d.id.spec_span() == id_location(items[j].id, items[j].span)
                        &&& d.position == j + 1
                        &&& d.other_position == i + 1
                        &&& d.first == span_range(id_location(items[i].id, items[i].span))
                        &&& d.second == span_range(id_location(items[j].id, items[j].span))
                    },
                    DuplicateFieldId::Named(_) => false,
                }
        },
        Fields::Unit => false,
    }
}

// ------------------------------------------------------------------------------------------------
// Validation
// ------------------------------------------------------------------------------------------------

/// Assign the identifiers of the named fields, and collect their locations and names.
fn collect_named<'a>(named: &crate::parser::punctuated::Punctuated<NamedField<'a>>) -> (r: (
    Vec<u32>,
    Vec<Span>,
    Vec<&'a str>,
))
    requires
        ids_in_range(named_ids(named.items())),
    ensures
        r.0@.len() == named.items().len(),
        r.1@.len() == named.items().len(),
        r.2@.len() == named.items().len(),
        forall|k: int|
            0 <= k < named.items().len() ==> r.0@[k] == #[trigger] assigned(named_ids(named.items()))[k],
        forall|k: int|
            0 <= k < named.items().len() ==> #[trigger] r.1@[k] == id_location(
                named.items()[k].id,
                named.items()[k].span,
            ),
        forall|k: int|
            0 <= k < named.items().len() ==> #[trigger] r.2@[k]@ == named.items()[k].name.spec_get(),
{
    let ghost items = named.items();
    let ghost all = named_ids(items);
    let mut ids: Vec<u32> = Vec::new();
    let mut spans: Vec<Span> = Vec::new();
    let mut names: Vec<&'a str> = Vec::new();
    let mut id_gen = IdGenerator::new();
    let mut iter = named.values();
    proof {
        lemma_assigned_prefix(all, 0);
    }
    loop
        invariant
            ids_in_range(all),
            all == named_ids(items),
            ids@.len() == spans@.len() == names@.len(),
            ids@.len() + iter.remaining().len() == items.len(),
            iter.remaining() == items.skip(ids@.len() as int),
            assigned(all.take(ids@.len() as int)) == ids@.map_values(|v: u32| v as nat),
            id_gen.next_value() == if ids@.len() == 0 {
                1
            } else {
                ids@.last() + 1
            },
            forall|k: int|
                0 <= k < ids@.len() ==> #[trigger] spans@[k] == id_location(
                    items[k].id,
                    items[k].span,
                ),
            forall|k: int| 0 <= k < ids@.len() ==> #[trigger] names@[k]@ == items[k].name.spec_get(),
        ensures
            ids@.len() == spans@.len() == names@.len() == items.len(),
            assigned(all.take(ids@.len() as int)) == ids@.map_values(|v: u32| v as nat),
            forall|k: int|
                0 <= k < ids@.len() ==> #[trigger] spans@[k] == id_location(
                    items[k].id,
                    items[k].span,
                ),
            forall|k: int| 0 <= k < ids@.len() ==> #[trigger] names@[k]@ == items[k].name.spec_get(),
        decreases iter.remaining().len(),
    {
        let field = match iter.next() {
            Some(f) => f,
            None => break,
        };
        let ghost k = ids@.len() as int;
        proof {
            assert(*field == items[k]);
            assert(all.take(k + 1).drop_last() =~= all.take(k));
            lemma_assigned_prefix(all, k + 1);
            assert(all[k] == explicit_id(field.id));
            assert(assigned(all.take(k + 1))[k] == assigned(all)[k]);
            assert(assigned(all)[k] < u32::MAX);
            assert(k > 0 ==> assigned(all.take(k))[k - 1] == ids@[k - 1]);
        }
        let id = id_gen.next(field.id.as_ref());
        let span = match &field.id {
            Some(i) => i.span(),
            None => field.span,
        };
        ids.push(id);
        spans.push(span);
        names.push(field.name.get());
        proof {
            assert(items.skip(k + 1) =~= items.skip(k).drop_first());
            assert(assigned(all.take(k + 1)) =~= ids@.map_values(|v: u32| v as nat));
        }
    }
    proof {
        lemma_assigned_prefix(all, items.len() as int);
        assert(all.take(items.len() as int) =~= all);
        assert forall|k: int| 0 <= k < items.len() implies ids@[k] == #[trigger] assigned(all)[k] by {
            assert(ids@.map_values(|v: u32| v as nat)[k] == ids@[k]);
        }
    }
    (ids, spans, names)
}

/// Assign the identifiers of the enum variants, and collect their locations and names.
fn collect_variants<'a>(named: &crate::parser::punctuated::Punctuated<Variant<'a>>) -> (r: (
    Vec<u32>,
    Vec<Span>,
    Vec<&'a str>,
))
    requires
        ids_in_range(variant_ids(named.items())),
    ensures
        r.0@.len() == named.items().len(),
        r.1@.len() == named.items().len(),
        r.2@.len() == named.items().len(),
        forall|k: int|
            0 <= k < named.items().len() ==> r.0@[k] == #[trigger] assigned(variant_ids(named.items()))[k],
        forall|k: int|
            0 <= k < named.items().len() ==> #[trigger] r.1@[k] == id_location(
                named.items()[k].id,
                named.items()[k].span,
            ),
        forall|k: int|
            0 <= k < named.items().len() ==> #[trigger] r.2@[k]@ == named.items()[k].name.spec_get(),
{
    let ghost items = named.items();
    let ghost all = variant_ids(items);
    let mut ids: Vec<u32> = Vec::new();
    let mut spans: Vec<Span> = Vec::new();
    let mut names: Vec<&'a str> = Vec::new();
    let mut id_gen = IdGenerator::new();
    let mut iter = named.values();
    proof {
        lemma_assigned_prefix(all, 0);
    }
    loop
        invariant
            ids_in_range(all),
            all == variant_ids(items),
            ids@.len() == spans@.len() == names@.len(),
            ids@.len() + iter.remaining().len() == items.len(),
            iter.remaining() == items.skip(ids@.len() as int),
            assigned(all.take(ids@.len() as int)) == ids@.map_values(|v: u32| v as nat),
            id_gen.next_value() == if ids@.len() == 0 {
                1
            } else {
                ids@.last() + 1
            },
            forall|k: int|
                0 <= k < ids@.len() ==> #[trigger] spans@[k] == id_location(
                    items[k].id,
                    items[k].span,
                ),
            forall|k: int| 0 <= k < ids@.len() ==> #[trigger] names@[k]@ == items[k].name.spec_get(),
        ensures
            ids@.len() == spans@.len() == names@.len() == items.len(),
            assigned(all.take(ids@.len() as int)) == ids@.map_values(|v: u32| v as nat),
            forall|k: int|
                0 <= k < ids@.len() ==> #[trigger] spans@[k] == id_location(
                    items[k].id,
                    items[k].span,
                ),
            forall|k: int| 0 <= k < ids@.len() ==> #[trigger] names@[k]@ == items[k].name.spec_get(),
        decreases iter.remaining().len(),
    {
        let field = match iter.next() {
            Some(f) => f,
            None => break,
        };
        let ghost k = ids@.len() as int;
        proof {
            assert(*field == items[k]);
            assert(all.take(k + 1).drop_last() =~= all.take(k));
            lemma_assigned_prefix(all, k + 1);
            assert(all[k] == explicit_id(field.id));
            assert(assigned(all.take(k + 1))[k] == assigned(all)[k]);
            assert(assigned(all)[k] < u32::MAX);
            assert(k > 0 ==> assigned(all.take(k))[k - 1] == ids@[k - 1]);
        }
        let id = id_gen.next(field.id.as_ref());
        let span = match &field.id {
            Some(i) => i.span(),
            None => field.span,
        };
        ids.push(id);
        spans.push(span);
        names.push(field.name.get());
        proof {
            assert(items.skip(k + 1) =~= items.skip(k).drop_first());
            assert(assigned(all.take(k + 1)) =~= ids@.map_values(|v: u32| v as nat));
        }
    }
    proof {
        lemma_assigned_prefix(all, items.len() as int);
        assert(all.take(items.len() as int) =~= all);
        assert forall|k: int| 0 <= k < items.len() implies ids@[k] == #[trigger] assigned(all)[k] by {
            assert(ids@.map_values(|v: u32| v as nat)[k] == ids@[k]);
        }
    }
    (ids, spans, names)
}

/// Assign the identifiers of the unnamed fields, and collect their locations.
fn collect_unnamed<'a>(unnamed: &crate::parser::punctuated::Punctuated<UnnamedField<'a>>) -> (r: (
    Vec<u32>,
    Vec<Span>,
))
    requires
        ids_in_range(unnamed_ids(unnamed.items())),
    ensures
        r.0@.len() == unnamed.items().len(),
        r.1@.len() == unnamed.items().len(),
        forall|k: int|
            0 <= k < unnamed.items().len() ==> r.0@[k] == #[trigger] assigned(
                unnamed_ids(unnamed.items()),
            )[k],
        forall|k: int|
            0 <= k < unnamed.items().len() ==> r.1@[k] == id_location(
                unnamed.items()[k].id,
                unnamed.items()[k].span,
            ),
{
    let ghost items = unnamed.items();
    let ghost all = unnamed_ids(items);
    let mut ids: Vec<u32> = Vec::new();
    let mut spans: Vec<Span> = Vec::new();
    let mut id_gen = IdGenerator::new();
    let mut iter = unnamed.values();
    proof {
        lemma_assigned_prefix(all, 0);
    }
    loop
        invariant
            ids_in_range(all),
            all == unnamed_ids(items),
            ids@.len() == spans@.len(),
            ids@.len() + iter.remaining().len() == items.len(),
            iter.remaining() == items.skip(ids@.len() as int),
            assigned(all.take(ids@.len() as int)) == ids@.map_values(|v: u32| v as nat),
            id_gen.next_value() == if ids@.len() == 0 {
                1
            } else {
                ids@.last() + 1
            },
            forall|k: int|
                0 <= k < ids@.len() ==> spans@[k] == id_location(items[k].id, items[k].span),
        ensures
            ids@.len() == spans@.len() == items.len(),
            assigned(all.take(ids@.len() as int)) == ids@.map_values(|v: u32| v as nat),
            forall|k: int|
                0 <= k < ids@.len() ==> spans@[k] == id_location(items[k].id, items[k].span),
        decreases iter.remaining().len(),
    {
        let field = match iter.next() {
            Some(f) => f,
            None => break,
        };
        let ghost k = ids@.len() as int;
        proof {
            assert(*field == items[k]);
            assert(all.take(k + 1).drop_last() =~= all.take(k));
            lemma_assigned_prefix(all, k + 1);
            assert(all[k] == explicit_id(field.id));
            assert(assigned(all.take(k + 1))[k] == assigned(all)[k]);
            assert(assigned(all)[k] < u32::MAX);
            assert(k > 0 ==> assigned(all.take(k))[k - 1] == ids@[k - 1]);
        }
        let id = id_gen.next(field.id.as_ref());
        let span = match &field.id {
            Some(i) => i.span(),
            None => field.span,
        };
        ids.push(id);
        spans.push(span);
        proof {
            assert(items.skip(k + 1) =~= items.skip(k).drop_first());
            assert(assigned(all.take(k + 1)) =~= ids@.map_values(|v: u32| v as nat));
        }
    }
    proof {
        lemma_assigned_prefix(all, items.len() as int);
        assert(all.take(items.len() as int) =~= all);
        assert forall|k: int| 0 <= k < items.len() implies ids@[k] == #[trigger] assigned(all)[k] by {
            assert(ids@.map_values(|v: u32| v as nat)[k] == ids@[k]);
        }
    }
    (ids, spans)
}

/// Ensure all field IDs of a struct or enum are unique.
///
/// Succeeds exactly when the assigned identifiers of the fields are pairwise distinct; otherwise
/// the error describes the first field that reuses an identifier of an earlier one.
pub fn validate_field_ids(value: &Fields<'_>) -> (r: Result<(), DuplicateFieldId>)
    requires
        fields_in_range(*value),
    ensures
        r is Ok <==> fields_ids_unique(*value),
        r matches Err(e) ==> fields_ids_error(*value, e),
{
    match value {
        Fields::Named(_, named) => {
            let (ids, spans, names) = collect_named(named);
            proof {
                lemma_assigned_prefix(named_ids(named.items()), 0);
                lemma_repeat_transfer(ids@, assigned(named_ids(named.items())));
            }
            match find_repeat_ids(&ids) {
                None => Ok(()),
                Some((i, j)) => {
                    let ghost items = named.items();
                    let ghost all = assigned(named_ids(items));
                    let e = DuplicateNamedFieldId {
                        id: Id::new(ids[j], spans[j]),
                        name: names[j].to_owned(),
                        other_name: names[i].to_owned(),
                        first: spans[i].start..spans[i].end,
                        second: spans[j].start..spans[j].end,
                    };
                    proof {
                        assert(ids@[i as int] == all[i as int]);
                        assert(ids@[j as int] == all[j as int]);
                        assert(first_repeat(all, i as int, j as int));
                    }
                    Err(DuplicateFieldId::Named(e))
                },
            }
        },
        Fields::Unnamed(_, unnamed) => {
            let (ids, spans) = collect_unnamed(unnamed);
            proof {
                lemma_assigned_prefix(unnamed_ids(unnamed.items()), 0);
                lemma_repeat_transfer(ids@, assigned(unnamed_ids(unnamed.items())));
            }
            match find_repeat_ids(&ids) {
                None => Ok(()),
                Some((i, j)) => {
                    let ghost items = unnamed.items();
                    let ghost all = assigned(unnamed_ids(items));
                    let count = ids.len();
                    assert(j < count);
                    let e = DuplicateUnnamedFieldId {
                        id: Id::new(ids[j], spans[j]),
                        position: j + 1,
                        other_position: i + 1,
                        first: spans[i].start..spans[i].end,
                        second: spans[j].start..spans[j].end,
                    };
                    proof {
                        assert(ids@[i as int] == all[i as int]);
                        assert(ids@[j as int] == all[j as int]);
                        assert(first_repeat(all, i as int, j as int));
                    }
                    Err(DuplicateFieldId::Unnamed(e))
                },
            }
        },
        Fields::Unit => Ok(()),
    }
}

/// Ensure all IDs inside a struct are unique (which are the field IDs).
pub fn validate_struct_ids(value: &Struct<'_>) -> (r: Result<(), DuplicateFieldId>)
    requires
        fields_in_range(value.fields),
    ensures
        r is Ok <==> fields_ids_unique(value.fields),
        r matches Err(e) ==> fields_ids_error(value.fields, e),
{
    validate_field_ids(&value.fields)
}

/// The identifiers of the variants, and those of the fields of each variant, can be assigned
/// without overflowing.
pub open spec fn enum_in_range(value: Enum) -> bool {
    let items = value.variants.items();
    &&& ids_in_range(variant_ids(items))
    &&& forall|k: int| 0 <= k < items.len() ==> fields_in_range(#[trigger] items[k].fields)
}

/// All variants have a unique identifier, and within each variant all fields do.
pub open spec fn enum_ids_unique(value: Enum) -> bool {
    let items = value.variants.items();
    &&& all_distinct(assigned(variant_ids(items)))
    &&& forall|k: int| 0 <= k < items.len() ==> fields_ids_unique(#[trigger] items[k].fields)
}

/// `e` describes the first problem found when the variants are checked in order: variant `j`
/// is the first one that either reuses the identifier of an earlier variant `i`, or (checked
/// second) holds fields with a repeated identifier.
pub open spec fn enum_ids_error(value: Enum, e: DuplicateId) -> bool {
    let items = value.variants.items();
    let ids = assigned(variant_ids(items));
    exists|j: int|
        #![trigger ids[j]]
        0 <= j < items.len() && distinct_before(ids, j) && (forall|k: int|
            0 <= k < j ==> fields_ids_unique(#[trigger] items[k].fields)) && match e {
            DuplicateId::EnumVariant(d) => exists|i: int|
                #![trigger ids[i]]
                first_repeat(ids, i, j) && {
                    &&& d.id.spec_get() == ids[j]
                    &&& d.id.spec_span() == id_location(items[j].id, items[j].span)
                    &&& d.name@ == items[j].name.spec_get()
                    &&& d.other_name@ == items[i].name.spec_get()
                    &&& d.first == span_range(id_location(items[i].id, items[i].span))
                    &&& d.second == span_range(id_location(items[j].id, items[j].span))
                },
            DuplicateId::Field(f) => {
                &&& forall|i: int| 0 <= i < j ==> ids[i] != ids[j]
                &&& fields_ids_error(items[j].fields, f)
            },
        }
}

/// Ensure all IDs inside an enum are unique, which means all variants have a unique ID, plus all
/// potential fields in a variant are unique (within that variant).
pub fn validate_enum_ids(value: &Enum<'_>) -> (r: Result<(), DuplicateId>)
    requires
        enum_in_range(*value),
    ensures
        r is Ok <==> enum_ids_unique(*value),
        r matches Err(e) ==> enum_ids_error(*value, e),
{
    let ghost items = value.variants.items();
    let ghost all = assigned(variant_ids(items));
    let (ids, spans, names) = collect_variants(&value.variants);
    proof {
        lemma_assigned_prefix(variant_ids(items), 0);
        lemma_repeat_transfer(ids@, all);
    }
    let n = ids.len();
    let mut j: usize = 0;
    while j < n
        invariant
            n == ids@.len() == spans@.len() == names@.len() == items.len() == all.len(),
            items == value.variants.items(),
            all == assigned(variant_ids(items)),
            enum_in_range(*value),
            j <= n,
            forall|k: int| 0 <= k < n ==> ids@[k] == #[trigger] all[k],
            forall|k: int|
                0 <= k < n ==> #[trigger] spans@[k] == id_location(items[k].id, items[k].span),
            forall|k: int| 0 <= k < n ==> #[trigger] names@[k]@ == items[k].name.spec_get(),
            distinct_before(all, j as int),
            forall|k: int| 0 <= k < j ==> fields_ids_unique(#[trigger] items[k].fields),
        decreases n - j,
    {
        let mut i: usize = 0;
        while i < j
            invariant
                i <= j < n == ids@.len() == all.len() == spans@.len() == names@.len(),
                forall|k: int| 0 <= k < n ==> ids@[k] == #[trigger] all[k],
                forall|a: int| 0 <= a < i ==> all[a] != all[j as int],
                distinct_before(all, j as int),
                items.len() == n,
                items == value.variants.items(),
                all == assigned(variant_ids(items)),
                forall|k: int| 0 <= k < j ==> fields_ids_unique(#[trigger] items[k].fields),
                forall|k: int|
                    0 <= k < n ==> #[trigger] spans@[k] == id_location(items[k].id, items[k].span),
                forall|k: int| 0 <= k < n ==> #[trigger] names@[k]@ == items[k].name.spec_get(),
            decreases j - i,
        {
            if ids[i] == ids[j] {
                let d = DuplicateVariantId {
                    id: Id::new(ids[j], spans[j]),
                    name: names[j].to_owned(),
                    other_name: names[i].to_owned(),
                    first: spans[i].start..spans[i].end,
                    second: spans[j].start..spans[j].end,
                };
                proof {
                    assert(first_repeat(all, i as int, j as int));
                    assert(ids@[j as int] == all[j as int]);
                    assert(ids@[i as int] == all[i as int]);
                    assert(all[i as int] == all[j as int]);
                    assert(names@[j as int]@ == items[j as int].name.spec_get());
                    assert(names@[i as int]@ == items[i as int].name.spec_get());
                    assert(spans@[j as int] == id_location(items[j as int].id, items[j as int].span));
                    assert(spans@[i as int] == id_location(items[i as int].id, items[i as int].span));
                }
                return Err(DuplicateId::EnumVariant(d));
            }
            i = i + 1;
        }
        let variant = value.variants.get(j);
        match validate_field_ids(&variant.fields) {
            Ok(()) => {},
            Err(e) => {
                proof {
                    assert(all[j as int] == ids@[j as int]);
                }
                return Err(DuplicateId::Field(e));
            },
        }
        j = j + 1;
    }
    Ok(())
}

} // verus!
