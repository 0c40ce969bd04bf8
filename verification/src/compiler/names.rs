//! Uniqueness of names: enum variants within their enum, fields within their struct or variant,
//! and definitions within their module.

use super::ids::span_range;
use super::{all_distinct, distinct_before, first_repeat};
use crate::parser::punctuated::Punctuated;
use crate::parser::{Definition, Enum, Fields, Name, NamedField, Span, Spanned, Struct, Variant};
use std::ops::Range;
use vstd::prelude::*;

verus! {

/// Duplicate name was encountered for two elements in the same scope.
#[derive(Debug)]
pub enum DuplicateName {
    /// Two variants of an enum have the same name.
    EnumVariant(DuplicateVariantName),
    /// Two fields in a struct or enum variant have the same name.
    Field(DuplicateFieldName),
    /// Two definitions in a module have the same name.
    InModule(DuplicateNameInModule),
}

/// Duplicate name for enum variants.
#[derive(Debug)]
pub struct DuplicateVariantName {
    /// Name of the variant.
    pub name: String,
    /// Where the name was first declared.
    pub first: Range<usize>,
    /// Where the name is used again.
    pub second: Range<usize>,
}

/// Duplicate name for fields of a struct or enum variant.
#[derive(Debug)]
pub struct DuplicateFieldName {
    /// Name of the field.
    pub name: String,
    /// Where the name was first declared.
    pub first: Range<usize>,
    /// Where the name is used again.
    pub second: Range<usize>,
}

/// Duplicate name for definitions inside a module.
#[derive(Debug)]
pub struct DuplicateNameInModule {
    /// Name of the declaration.
    pub name: String,
    /// Where the name was first declared.
    pub first: Range<usize>,
    /// Where the name is used again.
    pub second: Range<usize>,
}

// ------------------------------------------------------------------------------------------------
// Model
// ------------------------------------------------------------------------------------------------

/// The names of named fields, in order.
pub open spec fn field_names(fields: Seq<NamedField>) -> Seq<Seq<char>> {
    fields.map_values(|f: NamedField| f.name.spec_get())
}

/// The names of enum variants, in order.
pub open spec fn variant_names(variants: Seq<Variant>) -> Seq<Seq<char>> {
    variants.map_values(|v: Variant| v.name.spec_get())
}

/// The field names are unique (only named fields have names).
pub open spec fn fields_names_unique(fields: Fields) -> bool {
    match fields {
        Fields::Named(_, named) => all_distinct(field_names(named.items())),
        _ => true,
    }
}

/// `e` describes the first repeated field name: field `j` reuses the name of field `i`.
pub open spec fn fields_names_error(fields: Fields, e: DuplicateFieldName) -> bool {
    match fields {
        Fields::Named(_, named) => {
            let items = named.items();
            let names = field_names(items);
            exists|i: int, j: int|
                #![trigger names[i], names[j]]
                first_repeat(names, i, j) && {
                    &&& e.name@ == names[j]
                    &&& e.first == span_range(items[i].name.spec_span())
                    &&& e.second == span_range(items[j].name.spec_span())
                }
        },
        _ => false,
    }
}

/// All variants of the enum have unique names, and within each variant all fields do.
pub open spec fn enum_names_unique(value: Enum) -> bool {
    let items = value.variants.items();
    &&& all_distinct(variant_names(items))
    &&& forall|k: int| 0 <= k < items.len() ==> fields_names_unique(#[trigger] items[k].fields)
}

/// `e` describes the first problem found when the variants are checked in order: variant `j` is
/// the first one that either reuses the name of an earlier variant `i`, or (checked second) holds
/// fields with a repeated name.
pub open spec fn enum_names_error(value: Enum, e: DuplicateName) -> bool {
    let items = value.variants.items();
    let names = variant_names(items);
    exists|j: int|
        #![trigger names[j]]
        0 <= j < items.len() && distinct_before(names, j) && (forall|k: int|
            0 <= k < j ==> fields_names_unique(#[trigger] items[k].fields)) && match e {
            DuplicateName::EnumVariant(d) => exists|i: int|
                #![trigger names[i]]
                first_repeat(names, i, j) && {
                    &&& d.name@ == names[j]
                    &&& d.first == span_range(items[i].name.spec_span())
                    &&& d.second == span_range(items[j].name.spec_span())
                },
            DuplicateName::Field(f) => {
                &&& forall|i: int| 0 <= i < j ==> names[i] != names[j]
                &&& fields_names_error(items[j].fields, f)
            },
            DuplicateName::InModule(_) => false,
        }
}

/// The name under which a definition is known in its module: that of the definition itself, or
/// for an import the imported element, else the last segment of its path (if it has any).
pub open spec fn definition_name<'a>(definition: Definition<'a>) -> Option<Name<'a>> {
    match definition {
        Definition::Module(m) => Some(m.name),
        Definition::Struct(s) => Some(s.name),
        Definition::Enum(e) => Some(e.name),
        Definition::TypeAlias(a) => Some(a.name),
        Definition::Const(c) => Some(c.name),
        Definition::Import(i) => match i.element {
            Some((_, name)) => Some(name),
            None => if i.segments@.len() > 0 {
                Some(i.segments@.last())
            } else {
                None
            },
        },
    }
}

/// Both definitions have a name, and it is the same.
pub open spec fn names_clash(a: Definition, b: Definition) -> bool {
    match (definition_name(a), definition_name(b)) {
        (Some(x), Some(y)) => x.spec_get() == y.spec_get(),
        _ => false,
    }
}

/// No two of the first `j` definitions have the same name.
pub open spec fn module_unique_before(definitions: Seq<Definition>, j: int) -> bool {
    forall|a: int, b: int|
        0 <= a < b < j ==> !names_clash(#[trigger] definitions[a], #[trigger] definitions[b])
}

/// `e` describes the first definition `j` that reuses the name of an earlier definition `i`.
pub open spec fn module_names_error(definitions: Seq<Definition>, e: DuplicateName) -> bool {
    exists|i: int, j: int|
        #![trigger definitions[i], definitions[j]]
        0 <= i < j < definitions.len() && names_clash(definitions[i], definitions[j])
            && module_unique_before(definitions, j) && match e {
            DuplicateName::InModule(d) => match definition_name(definitions[j]) {
                Some(second) => match definition_name(definitions[i]) {
                    Some(first) => {
                        &&& d.name@ == second.spec_get()
                        &&& d.first == span_range(first.spec_span())
                        &&& d.second == span_range(second.spec_span())
                    },
                    None => false,
                },
                None => false,
            },
            _ => false,
        }
}

// ------------------------------------------------------------------------------------------------
// Validation
// ------------------------------------------------------------------------------------------------

/// The name that a definition brings into its module: what a module, struct, enum, type alias
/// or const declares after its keyword, and for an import the element it imports, or else the
/// last segment of its path.
pub open spec fn declared_name(definition: Definition) -> Option<Seq<char>> {
    match definition {
        Definition::Module(m) => Some(m.name.spec_get()),
        Definition::Struct(s) => Some(s.name.spec_get()),
        Definition::Enum(e) => Some(e.name.spec_get()),
        Definition::TypeAlias(a) => Some(a.name.spec_get()),
        Definition::Const(c) => Some(c.name.spec_get()),
        Definition::Import(i) => match i.element {
            Some((_, name)) => Some(name.spec_get()),
            None => if i.segments@.len() > 0 {
                Some(i.segments@.last().spec_get())
            } else {
                None
            },
        },
    }
}

/// Every definition is known in its module by the name it brings in: two definitions of a module
/// that bring in the same name make it fail validation, whatever their kinds.
pub proof fn law_declared_names_clash(definitions: Seq<Definition>, i: int, j: int)
    requires
        0 <= i < j < definitions.len(),
        declared_name(definitions[i]) is Some,
        declared_name(definitions[i]) == declared_name(definitions[j]),
    ensures
        names_clash(definitions[i], definitions[j]),
        !module_unique_before(definitions, definitions.len() as int),
{
    assert(names_clash(definitions[i], definitions[j]));
}

/// Whether two names consist of the same characters.
fn same_name(a: &str, b: &str) -> (r: bool)
    ensures
        r == (a@ == b@),
{
    a.to_owned() == b.to_owned()
}

/// Whether the first `count` names of `names` are all different from the name at `j`, if not the
/// position of the first one that is equal.
fn find_earlier(names: &Vec<&str>, j: usize) -> (r: Option<usize>)
    requires
        j < names@.len(),
    ensures
        match r {
            Some(i) => i < j && names@[i as int]@ == names@[j as int]@ && forall|a: int|
                0 <= a < i ==> names@[a]@ != names@[j as int]@,
            None => forall|a: int| 0 <= a < j ==> names@[a]@ != names@[j as int]@,
        },
{
    let mut i: usize = 0;
    while i < j
        invariant
            i <= j < names@.len(),
            forall|a: int| 0 <= a < i ==> names@[a]@ != names@[j as int]@,
        decreases j - i,
    {
        if same_name(names[i], names[j]) {
            return Some(i);
        }
        i = i + 1;
    }
    None
}

/// The names of the named fields and where they stand.
fn collect_field_names<'a>(named: &Punctuated<NamedField<'a>>) -> (r: (Vec<&'a str>, Vec<Span>))
    ensures
        r.0@.len() == named.items().len(),
        r.1@.len() == named.items().len(),
        forall|k: int|
            0 <= k < named.items().len() ==> #[trigger] r.0@[k]@ == named.items()[k].name.spec_get(),
        forall|k: int|
            0 <= k < named.items().len() ==> #[trigger] r.1@[k] == named.items()[k].name.spec_span(),
{
    let ghost items = named.items();
    let mut names: Vec<&'a str> = Vec::new();
    let mut spans: Vec<Span> = Vec::new();
    let mut iter = named.values();
    loop
        invariant
            names@.len() == spans@.len(),
            names@.len() + iter.remaining().len() == items.len(),
            iter.remaining() == items.skip(names@.len() as int),
            forall|k: int| 0 <= k < names@.len() ==> #[trigger] names@[k]@ == items[k].name.spec_get(),
            forall|k: int| 0 <= k < names@.len() ==> #[trigger] spans@[k] == items[k].name.spec_span(),
        ensures
            names@.len() == spans@.len() == items.len(),
            forall|k: int| 0 <= k < names@.len() ==> #[trigger] names@[k]@ == items[k].name.spec_get(),
            forall|k: int| 0 <= k < names@.len() ==> #[trigger] spans@[k] == items[k].name.spec_span(),
        decreases iter.remaining().len(),
    {
        let field = match iter.next() {
            Some(f) => f,
            None => break,
        };
        let ghost k = names@.len() as int;
        proof {
            assert(*field == items[k]);
        }
        names.push(field.name.get());
        spans.push(field.name.span());
        proof {
            assert(items.skip(k + 1) =~= items.skip(k).drop_first());
        }
    }
    (names, spans)
}

/// The names of the enum variants and where they stand.
fn collect_variant_names<'a>(variants: &Punctuated<Variant<'a>>) -> (r: (Vec<&'a str>, Vec<Span>))
    ensures
        r.0@.len() == variants.items().len(),
        r.1@.len() == variants.items().len(),
        forall|k: int|
            0 <= k < variants.items().len() ==> #[trigger] r.0@[k]@ == variants.items()[k].name.spec_get(),
        forall|k: int|
            0 <= k < variants.items().len() ==> #[trigger] r.1@[k] == variants.items()[k].name.spec_span(),
{
    let ghost items = variants.items();
    let mut names: Vec<&'a str> = Vec::new();
    let mut spans: Vec<Span> = Vec::new();
    let mut iter = variants.values();
    loop
        invariant
            names@.len() == spans@.len(),
            names@.len() + iter.remaining().len() == items.len(),
            iter.remaining() == items.skip(names@.len() as int),
            forall|k: int| 0 <= k < names@.len() ==> #[trigger] names@[k]@ == items[k].name.spec_get(),
            forall|k: int| 0 <= k < names@.len() ==> #[trigger] spans@[k] == items[k].name.spec_span(),
        ensures
            names@.len() == spans@.len() == items.len(),
            forall|k: int| 0 <= k < names@.len() ==> #[trigger] names@[k]@ == items[k].name.spec_get(),
            forall|k: int| 0 <= k < names@.len() ==> #[trigger] spans@[k] == items[k].name.spec_span(),
        decreases iter.remaining().len(),
    {
        let variant = match iter.next() {
            Some(v) => v,
            None => break,
        };
        let ghost k = names@.len() as int;
        proof {
            assert(*variant == items[k]);
        }
        names.push(variant.name.get());
        spans.push(variant.name.span());
        proof {
            assert(items.skip(k + 1) =~= items.skip(k).drop_first());
        }
    }
    (names, spans)
}

/// Ensure all field names of a struct or enum are unique.
///
/// Succeeds exactly when no two named fields share a name; otherwise the error describes the
/// first field that reuses the name of an earlier one.
pub fn validate_field_names(value: &Fields<'_>) -> (r: Result<(), DuplicateFieldName>)
    ensures
        r is Ok <==> fields_names_unique(*value),
        r matches Err(e) ==> fields_names_error(*value, e),
{
    match value {
        Fields::Named(brace, named) => {
            let ghost items = named.items();
            let ghost fnames = field_names(items);
            let (names, spans) = collect_field_names(named);
            let n = names.len();
            let mut j: usize = 0;
            while j < n
                invariant
                    n == names@.len() == spans@.len() == items.len() == fnames.len(),
                    *value == Fields::Named(*brace, *named),
                    items == named.items(),
                    fnames == field_names(items),
                    j <= n,
                    distinct_before(fnames, j as int),
                    forall|k: int| 0 <= k < n ==> #[trigger] names@[k]@ == items[k].name.spec_get(),
                    forall|k: int| 0 <= k < n ==> #[trigger] spans@[k] == items[k].name.spec_span(),
                decreases n - j,
            {
                match find_earlier(&names, j) {
                    Some(i) => {
                        let e = DuplicateFieldName {
                            name: names[j].to_owned(),
                            first: spans[i].start..spans[i].end,
                            second: spans[j].start..spans[j].end,
                        };
                        proof {
                            assert(names@[i as int]@ == fnames[i as int]);
                            assert(names@[j as int]@ == fnames[j as int]);
                            assert forall|a: int| 0 <= a < i implies fnames[a] != fnames[j as int] by {
                                assert(names@[a]@ == fnames[a]);
                            }
                            assert(first_repeat(fnames, i as int, j as int));
                        }
                        return Err(e);
                    },
                    None => {
                        proof {
                            assert forall|a: int, b: int| 0 <= a < b < j + 1 implies fnames[a]
                                != fnames[b] by {
                                if b == j {
                                    assert(names@[a]@ == fnames[a]);
                                    assert(names@[b]@ == fnames[b]);
                                }
                            }
                        }
                    },
                }
                j = j + 1;
            }
            Ok(())
        },
        _ => Ok(()),
    }
}

/// Ensure all field names inside a struct are unique.
pub fn validate_struct_names(value: &Struct<'_>) -> (r: Result<(), DuplicateFieldName>)
    ensures
        r is Ok <==> fields_names_unique(value.fields),
        r matches Err(e) ==> fields_names_error(value.fields, e),
{
    validate_field_names(&value.fields)
}

/// Ensure all names inside an enum are unique, which means all variants have a unique name, plus
/// all potential fields in a variant are unique (within that variant).
pub fn validate_enum_names(value: &Enum<'_>) -> (r: Result<(), DuplicateName>)
    ensures
        r is Ok <==> enum_names_unique(*value),
        r matches Err(e) ==> enum_names_error(*value, e),
{
    let ghost items = value.variants.items();
    let ghost vnames = variant_names(items);
    let (names, spans) = collect_variant_names(&value.variants);
    let n = names.len();
    let mut j: usize = 0;
    while j < n
        invariant
            n == names@.len() == spans@.len() == items.len() == vnames.len(),
            items == value.variants.items(),
            vnames == variant_names(items),
            j <= n,
            distinct_before(vnames, j as int),
            forall|k: int| 0 <= k < j ==> fields_names_unique(#[trigger] items[k].fields),
            forall|k: int| 0 <= k < n ==> #[trigger] names@[k]@ == items[k].name.spec_get(),
            forall|k: int| 0 <= k < n ==> #[trigger] spans@[k] == items[k].name.spec_span(),
        decreases n - j,
    {
        match find_earlier(&names, j) {
            Some(i) => {
                let d = DuplicateVariantName {
                    name: names[j].to_owned(),
                    first: spans[i].start..spans[i].end,
                    second: spans[j].start..spans[j].end,
                };
                proof {
                    assert(names@[i as int]@ == vnames[i as int]);
                    assert(names@[j as int]@ == vnames[j as int]);
                    assert forall|a: int| 0 <= a < i implies vnames[a] != vnames[j as int] by {
                        assert(names@[a]@ == vnames[a]);
                    }
                    assert(first_repeat(vnames, i as int, j as int));
                }
                return Err(DuplicateName::EnumVariant(d));
            },
            None => {
                proof {
                    assert forall|a: int| 0 <= a < j implies vnames[a] != vnames[j as int] by {
                        assert(names@[a]@ == vnames[a]);
                        assert(names@[j as int]@ == vnames[j as int]);
                    }
                }
            },
        }
        let variant = value.variants.get(j);
        match validate_field_names(&variant.fields) {
            Ok(()) => {},
            Err(e) => {
                proof {
                    assert(vnames[j as int] == items[j as int].name.spec_get());
                }
                return Err(DuplicateName::Field(e));
            },
        }
        j = j + 1;
    }
    Ok(())
}

/// The name under which a definition is known in its module, if it has one.
fn name_of<'a, 'b>(definition: &'b Definition<'a>) -> (r: Option<&'b Name<'a>>)
    ensures
        match r {
            Some(n) => definition_name(*definition) == Some(*n),
            None => definition_name(*definition) is None,
        },
{
    match definition {
        Definition::Module(m) => Some(&m.name),
        Definition::Struct(s) => Some(&s.name),
        Definition::Enum(e) => Some(&e.name),
        Definition::TypeAlias(a) => Some(&a.name),
        Definition::Const(c) => Some(&c.name),
        Definition::Import(i) => match &i.element {
            Some((_, name)) => Some(name),
            None => if i.segments.len() > 0 {
                Some(&i.segments[i.segments.len() - 1])
            } else {
                None
            },
        },
    }
}

/// Ensure no two definitions of a module (or schema) share a name.
///
/// Succeeds exactly when that holds; otherwise the error names the first definition whose name
/// was already used by an earlier one. Imports count with the element they import, or else with
/// the last segment of their path.
pub fn validate_names_in_module(value: &[Definition<'_>]) -> (r: Result<(), DuplicateName>)
    ensures
        r is Ok <==> module_unique_before(value@, value@.len() as int),
        r matches Err(e) ==> module_names_error(value@, e),
{
    let n = value.len();
    let mut j: usize = 0;
    while j < n
        invariant
            n == value@.len(),
            j <= n,
            module_unique_before(value@, j as int),
        decreases n - j,
    {
        match name_of(&value[j]) {
            Some(second) => {
                let mut i: usize = 0;
                while i < j
                    invariant
                        i <= j < n == value@.len(),
                        definition_name(value@[j as int]) == Some(*second),
                        module_unique_before(value@, j as int),
                        forall|a: int| 0 <= a < i ==> !names_clash(value@[a], value@[j as int]),
                    decreases j - i,
                {
                    match name_of(&value[i]) {
                        Some(first) => {
                            if same_name(first.get(), second.get()) {
                                let d = DuplicateNameInModule {
                                    name: second.get().to_owned(),
                                    first: first.span().start..first.span().end,
                                    second: second.span().start..second.span().end,
                                };
                                proof {
                                    assert(names_clash(value@[i as int], value@[j as int]));
                                }
                                return Err(DuplicateName::InModule(d));
                            }
                        },
                        None => {},
                    }
                    i = i + 1;
                }
            },
            None => {},
        }
        j = j + 1;
    }
    Ok(())
}

} // verus!
