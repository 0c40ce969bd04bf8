//! Ensure all referenced types within a schema itself, as well as between schemas, exist and are
//! correct.
//!
//! Resolution looks at every external type that a struct or enum field uses (skipping the
//! generic parameters of its definition). A type is first looked up locally: its path leads from
//! the module it is used in through submodules, and the module reached must declare a struct or
//! enum of that name with as many generics as the use side gives. Types that are not found
//! locally are looked up in other schemas through the module's imports.

use super::ids::span_range;
use crate::parser::punctuated::Punctuated;
use crate::parser::{
    self, DataType, Definition, ExternalType, Fields, Generics, Import, Name, NamedField, Schema,
    Span, Spanned, UnnamedField, Variant,
};
use std::ops::Range;
use vstd::prelude::*;
use vstd::string::StringExecFns;

verus! {

/// Kind of a definition that can be looked up by name in a module.
#[derive(Clone, Copy, Debug, PartialEq, Eq)]
pub enum TypeKind {
    /// A struct, with its count of generic type parameters.
    Struct {
        /// Count of generic type parameters.
        generics: usize,
    },
    /// An enum, with its count of generic type parameters.
    Enum {
        /// Count of generic type parameters.
        generics: usize,
    },
    /// A type alias.
    Alias,
    /// A constant.
    Const,
}

/// A definition that can be looked up by name in a module.
#[derive(Debug)]
pub struct Type<'a> {
    /// What was declared.
    pub kind: TypeKind,
    /// Name of the declaration.
    pub name: Name<'a>,
}

// ------------------------------------------------------------------------------------------------
// External types used by a data type
// ------------------------------------------------------------------------------------------------

/// The external types that a data type refers to, in the order in which resolution visits them:
/// an external type first, then its generic arguments.
pub open spec fn externals<'a>(ty: parser::Type<'a>) -> Seq<ExternalType<'a>>
    decreases ty, 0nat,
{
    match ty.value {
        DataType::Vec { ty: inner, .. } => externals(*inner),
        DataType::HashSet { ty: inner, .. } => externals(*inner),
        DataType::Option { ty: inner, .. } => externals(*inner),
        DataType::Array { ty: inner, .. } => externals(*inner),
        DataType::NonZero { ty: inner, .. } => externals(*inner),
        DataType::HashMap { key, value, .. } => externals(*key) + externals(*value),
        DataType::Tuple { types, .. } => externals_from(types, 0),
        DataType::External(e) => seq![e] + match e.generics {
            Some(g) => externals_from(g, 0),
            None => Seq::empty(),
        },
        _ => Seq::empty(),
    }
}

/// The external types referred to by the types of a list, starting at position `i`.
pub open spec fn externals_from<'a>(types: Punctuated<parser::Type<'a>>, i: int) -> Seq<ExternalType<'a>>
    decreases types, types.items().len() - i,
{
    if 0 <= i < types.items().len() {
        proof {
            types.lemma_items_decrease();
        }
        externals(types.items()[i]) + externals_from(types, i + 1)
    } else {
        Seq::empty()
    }
}

/// Append the external types that `ty` refers to.
fn collect_externals<'a, 'b>(ty: &'a parser::Type<'b>, out: &mut Vec<&'a ExternalType<'b>>)
    ensures
        final(out)@.map_values(|e: &ExternalType<'b>| *e) == old(out)@.map_values(
            |e: &ExternalType<'b>| *e,
        ) + externals(*ty),
    decreases *ty, 0nat,
{
    let ghost before = out@.map_values(|e: &ExternalType<'b>| *e);
    match &ty.value {
        DataType::Vec { ty: inner, .. } | DataType::HashSet { ty: inner, .. } | DataType::Option {
            ty: inner,
            ..
        } | DataType::Array { ty: inner, .. } | DataType::NonZero { ty: inner, .. } => {
            collect_externals(inner, out);
        },
        DataType::HashMap { key, value, .. } => {
            collect_externals(key, out);
            collect_externals(value, out);
            proof {
                assert(out@.map_values(|e: &ExternalType<'b>| *e) =~= before + externals(*ty));
            }
        },
        DataType::Tuple { types, .. } => {
            collect_externals_from(types, out);
        },
        DataType::External(e) => {
            out.push(e);
            proof {
                assert(out@.map_values(|e: &ExternalType<'b>| *e) =~= before + seq![*e]);
            }
            match &e.generics {
                Some(g) => {
                    collect_externals_from(g, out);
                },
                None => {},
            }
            proof {
                assert(out@.map_values(|e: &ExternalType<'b>| *e) =~= before + externals(*ty));
            }
        },
        _ => {
            proof {
                assert(out@.map_values(|e: &ExternalType<'b>| *e) =~= before + externals(*ty));
            }
        },
    }
}

/// Append the external types that the types of a list refer to.
fn collect_externals_from<'a, 'b>(
    types: &'a Punctuated<parser::Type<'b>>,
    out: &mut Vec<&'a ExternalType<'b>>,
)
    ensures
        final(out)@.map_values(|e: &ExternalType<'b>| *e) == old(out)@.map_values(
            |e: &ExternalType<'b>| *e,
        ) + externals_from(*types, 0),
    decreases *types, 0nat,
{
    let ghost before = out@.map_values(|e: &ExternalType<'b>| *e);
    let ghost items = types.items();
    let mut iter = types.values();
    let ghost mut k: int = 0;
    proof {
        types.lemma_items_decrease();
    }
    loop
        invariant
            items == types.items(),
            0 <= k <= items.len(),
            iter.remaining() == items.skip(k),
            out@.map_values(|e: &ExternalType<'b>| *e) + externals_from(*types, k) == before
                + externals_from(*types, 0),
            forall|i: int| 0 <= i < items.len() ==> decreases_to!(*types => #[trigger] items[i]),
        ensures
            k == items.len(),
            out@.map_values(|e: &ExternalType<'b>| *e) + externals_from(*types, k) == before
                + externals_from(*types, 0),
        decreases items.len() - k,
    {
        let ty = match iter.next() {
            Some(t) => t,
            None => break,
        };
        proof {
            assert(*ty == items[k]);
        }
        let ghost prev = out@.map_values(|e: &ExternalType<'b>| *e);
        collect_externals(ty, out);
        proof {
            assert(items.skip(k + 1) =~= items.skip(k).drop_first());
            assert(externals_from(*types, k) == externals(items[k]) + externals_from(*types, k + 1));
            assert(out@.map_values(|e: &ExternalType<'b>| *e) + externals_from(*types, k + 1) =~= prev
                + externals_from(*types, k));
            k = k + 1;
        }
    }
    proof {
        assert(externals_from(*types, k) =~= Seq::empty());
        assert(out@.map_values(|e: &ExternalType<'b>| *e) =~= before + externals_from(*types, 0));
    }
}

// ------------------------------------------------------------------------------------------------
// Errors
// ------------------------------------------------------------------------------------------------

/// Failed to resolve the type within a schema's root or one of its submodules.
#[derive(Debug)]
pub enum ResolveLocal {
    /// The referenced submodule doesn't exist.
    MissingModule(MissingModule),
    /// The referenced definition in the root or a submodule doesn't exist.
    MissingDefinition(MissingDefinition),
    /// The amount of generics between declaration and use side doesn't match.
    GenericsCount(GenericsCount),
    /// The referenced definition can't be used as type.
    InvalidKind(InvalidKind),
}

/// The referenced (sub)module wasn't found in the schema.
#[derive(Debug)]
pub struct MissingModule {
    /// Name of the missing module.
    pub name: String,
    /// Path of modules at which the resolution failed.
    pub path: String,
    /// Where the module was referenced.
    pub used: Range<usize>,
}

/// The referenced type wasn't found in the schema root or submodule.
#[derive(Debug)]
pub struct MissingDefinition {
    /// Name of the missing type.
    pub name: String,
    /// Path of the resolved module where resolution failed.
    pub path: String,
    /// Where the type was referenced.
    pub used: Range<usize>,
}

/// The referenced type was found but the amount of generic type parameters didn't match.
#[derive(Debug)]
pub struct GenericsCount {
    /// Amount of generics on the declaration side.
    pub definition: usize,
    /// Amount of generics on the use side.
    pub usage: usize,
    /// Where the type was declared.
    pub declared: Range<usize>,
    /// Where the type was referenced.
    pub used: Range<usize>,
}

/// The referenced definition was found but it's not a type that can be referenced.
#[derive(Debug)]
pub struct InvalidKind {
    /// The kind of definition that was found.
    pub kind: &'static str,
    /// Where the definition was declared.
    pub declared: Range<usize>,
    /// Where it was referenced.
    pub used: Range<usize>,
}

// ------------------------------------------------------------------------------------------------
// Lookup model
// ------------------------------------------------------------------------------------------------

/// Count of generic type parameters of a declaration.
pub open spec fn generics_count(generics: Option<Generics>) -> nat {
    match generics {
        Some(g) => g.types.items().len(),
        None => 0,
    }
}

/// Count of generic type arguments on the use side.
pub open spec fn usage_count(ty: ExternalType) -> nat {
    match ty.generics {
        Some(g) => g.items().len(),
        None => 0,
    }
}

/// What a definition declares that can be looked up by name, if anything.
pub open spec fn declared_kind(definition: Definition) -> Option<TypeKind> {
    match definition {
        Definition::Struct(s) => Some(TypeKind::Struct { generics: generics_count(s.generics) as usize }),
        Definition::Enum(e) => Some(TypeKind::Enum { generics: generics_count(e.generics) as usize }),
        Definition::TypeAlias(_) => Some(TypeKind::Alias),
        Definition::Const(_) => Some(TypeKind::Const),
        _ => None,
    }
}

/// The name of a definition that can be looked up.
pub open spec fn declared_name<'a>(definition: Definition<'a>) -> Name<'a> {
    match definition {
        Definition::Struct(s) => s.name,
        Definition::Enum(e) => e.name,
        Definition::TypeAlias(a) => a.name,
        Definition::Const(c) => c.name,
        Definition::Module(m) => m.name,
        Definition::Import(i) => i.full,
    }
}

/// The definition declares something named `name` that can be looked up.
pub open spec fn is_type_named(definition: Definition, name: Seq<char>) -> bool {
    declared_kind(definition) is Some && declared_name(definition).spec_get() == name
}

/// Position `k` holds the first definition named `name` that can be looked up.
pub open spec fn first_type(definitions: Seq<Definition>, name: Seq<char>, k: int) -> bool {
    &&& 0 <= k < definitions.len()
    &&& is_type_named(definitions[k], name)
    &&& forall|j: int| 0 <= j < k ==> !is_type_named(#[trigger] definitions[j], name)
}

/// The definition is a submodule named `name`.
pub open spec fn is_module_named(definition: Definition, name: Seq<char>) -> bool {
    definition matches Definition::Module(m) && m.name.spec_get() == name
}

/// Position `k` holds the last submodule named `name` (a later one shadows an earlier one).
pub open spec fn last_module(definitions: Seq<Definition>, name: Seq<char>, k: int) -> bool {
    &&& 0 <= k < definitions.len()
    &&& is_module_named(definitions[k], name)
    &&& forall|j: int| k < j < definitions.len() ==> !is_module_named(#[trigger] definitions[j], name)
}

/// The definitions contained in a module definition.
pub open spec fn module_definitions<'a>(definition: Definition<'a>) -> Seq<Definition<'a>> {
    match definition {
        Definition::Module(m) => m.definitions@,
        _ => Seq::empty(),
    }
}

/// The definitions of the submodule named `name`, if there is one.
pub open spec fn submodule<'a>(definitions: Seq<Definition<'a>>, name: Seq<char>) -> Option<
    Seq<Definition<'a>>,
> {
    if exists|k: int| last_module(definitions, name, k) {
        Some(module_definitions(definitions[choose|k: int| last_module(definitions, name, k)]))
    } else {
        None
    }
}

/// The definitions of the module reached by following the path of submodule names.
pub open spec fn walk<'a>(definitions: Seq<Definition<'a>>, path: Seq<Seq<char>>) -> Option<
    Seq<Definition<'a>>,
>
    decreases path.len(),
{
    if path.len() == 0 {
        Some(definitions)
    } else {
        match walk(definitions, path.drop_last()) {
            Some(d) => submodule(d, path.last()),
            None => None,
        }
    }
}

/// The module path of an external type, as names.
pub open spec fn path_names(ty: ExternalType) -> Seq<Seq<char>> {
    ty.path@.map_values(|p: (Name, parser::token::DoubleColon)| p.0.spec_get())
}

/// The names of a module path.
pub open spec fn path_view(path: Seq<&str>) -> Seq<Seq<char>> {
    path.map_values(|s: &str| s@)
}

/// A module path written out, its segments separated by `::`.
pub open spec fn joined(path: Seq<Seq<char>>) -> Seq<char>
    decreases path.len(),
{
    if path.len() == 0 {
        Seq::empty()
    } else if path.len() == 1 {
        path[0]
    } else {
        joined(path.drop_last()) + seq![':', ':'] + path.last()
    }
}

// ------------------------------------------------------------------------------------------------
// Modules
// ------------------------------------------------------------------------------------------------

/// A module of a schema, in which types are looked up: the schema root or a submodule.
pub struct Module<'a> {
    /// Name of this module (the schema name for the root).
    pub name: &'a str,
    /// Full path from the root (the schema) till here, ending with this module's name.
    pub path: Vec<&'a str>,
    /// The definitions declared in this module.
    pub definitions: &'a [Definition<'a>],
}

/// Write out a module path, its segments separated by `::`.
fn join_path(path: &Vec<&str>) -> (r: String)
    ensures
        r@ == joined(path_view(path@)),
{
    let mut out = String::new();
    let mut k: usize = 0;
    while k < path.len()
        invariant
            k <= path@.len(),
            out@ == joined(path_view(path@.take(k as int))),
        decreases path@.len() - k,
    {
        proof {
            assert(path_view(path@.take(k + 1)).drop_last() =~= path_view(path@.take(k as int)));
        }
        if k > 0 {
            out.append("::");
            proof {
                reveal_strlit("::");
            }
        }
        out.append(path[k]);
        proof {
            if k == 0 {
                assert(out@ =~= path_view(path@.take(1))[0]);
            } else {
                assert(out@ =~= joined(path_view(path@.take(k as int))) + seq![':', ':'] + path@[k as int]@);
            }
        }
        k = k + 1;
    }
    proof {
        assert(path@.take(path@.len() as int) =~= path@);
    }
    out
}

/// Whether two names consist of the same characters.
fn same_str(a: &str, b: &str) -> (r: bool)
    ensures
        r == (a@ == b@),
{
    a.to_owned() == b.to_owned()
}

/// What a definition declares that can be looked up, with its name.
fn declared<'a>(definition: &Definition<'a>) -> (r: Option<Type<'a>>)
    ensures
        match r {
            Some(t) => {
                &&& declared_kind(*definition) == Some(t.kind)
                &&& t.name.spec_get() == declared_name(*definition).spec_get()
                &&& t.name.spec_span() == declared_name(*definition).spec_span()
            },
            None => declared_kind(*definition) is None,
        },
{
    let (kind, name) = match definition {
        Definition::Struct(s) => (TypeKind::Struct { generics: count_generics(&s.generics) }, &s.name),
        Definition::Enum(e) => (TypeKind::Enum { generics: count_generics(&e.generics) }, &e.name),
        Definition::TypeAlias(a) => (TypeKind::Alias, &a.name),
        Definition::Const(c) => (TypeKind::Const, &c.name),
        _ => {
            return None;
        },
    };
    Some(Type { kind, name: Name::new(name.get(), name.span()) })
}

/// Count of generic type parameters of a declaration.
fn count_generics(generics: &Option<Generics<'_>>) -> (r: usize)
    ensures
        r == generics_count(*generics),
{
    match generics {
        Some(g) => g.types.len(),
        None => 0,
    }
}

/// Count of generic type arguments on the use side.
fn count_usage(ty: &ExternalType<'_>) -> (r: usize)
    ensures
        r == usage_count(*ty),
{
    match &ty.generics {
        Some(g) => g.len(),
        None => 0,
    }
}

/// The position of the first definition named `name` that can be looked up.
fn find_type(definitions: &[Definition<'_>], name: &str) -> (r: Option<usize>)
    ensures
        match r {
            Some(k) => first_type(definitions@, name@, k as int),
            None => forall|k: int| 0 <= k < definitions@.len() ==> !is_type_named(#[trigger] definitions@[k], name@),
        },
{
    let mut k: usize = 0;
    while k < definitions.len()
        invariant
            k <= definitions@.len(),
            forall|j: int| 0 <= j < k ==> !is_type_named(#[trigger] definitions@[j], name@),
        decreases definitions@.len() - k,
    {
        match declared(&definitions[k]) {
            Some(t) => {
                if same_str(t.name.get(), name) {
                    return Some(k);
                }
            },
            None => {},
        }
        k = k + 1;
    }
    None
}

/// There is at most one last submodule of a name.
proof fn lemma_last_module_unique(definitions: Seq<Definition>, name: Seq<char>, k: int)
    requires
        last_module(definitions, name, k),
    ensures
        submodule(definitions, name) == Some(module_definitions(definitions[k])),
{
    let c = choose|c: int| last_module(definitions, name, c);
    assert(last_module(definitions, name, c));
    if c < k {
        assert(!is_module_named(definitions[k], name));
    } else if k < c {
        assert(!is_module_named(definitions[c], name));
    }
}

impl<'a> Module<'a> {
    /// The submodule of this module named `name`, if there is one.
    pub fn child(&self, name: &str) -> (r: Option<Module<'a>>)
        ensures
            match r {
                Some(c) => {
                    &&& submodule(self.definitions@, name@) == Some(c.definitions@)
                    &&& c.name@ == name@
                    &&& path_view(c.path@) == path_view(self.path@).push(name@)
                },
                None => submodule(self.definitions@, name@) is None,
            },
    {
        let mut k: usize = self.definitions.len();
        while k > 0
            invariant
                k <= self.definitions@.len(),
                forall|j: int|
                    k <= j < self.definitions@.len() ==> !is_module_named(
                        #[trigger] self.definitions@[j],
                        name@,
                    ),
            decreases k,
        {
            k = k - 1;
            match &self.definitions[k] {
                Definition::Module(m) => {
                    if same_str(m.name.get(), name) {
                        proof {
                            lemma_last_module_unique(self.definitions@, name@, k as int);
                        }
                        let mut path = self.path.clone();
                        let child_name = m.name.get();
                        path.push(child_name);
                        proof {
                            assert(path_view(path@) =~= path_view(self.path@).push(name@));
                        }
                        return Some(Module { name: child_name, path, definitions: m.definitions.as_slice() });
                    }
                },
                _ => {},
            }
        }
        proof {
            assert forall|c: int| !last_module(self.definitions@, name@, c) by {
                if 0 <= c < self.definitions@.len() {
                    assert(!is_module_named(self.definitions@[c], name@));
                }
            }
        }
        None
    }
}

/// The outcome of resolving `ty` locally, from the module with the given definitions and path:
/// the path of the type leads through submodules (the first missing one is reported), and the
/// module reached must declare a struct or enum of that name (the first declaration of that name
/// counts) with as many generics as the use side gives.
pub open spec fn local_outcome(
    definitions: Seq<Definition>,
    path: Seq<Seq<char>>,
    ty: ExternalType,
    r: Result<(), ResolveLocal>,
) -> bool {
    let segments = path_names(ty);
    let used = span_range(ty.name.spec_span());
    match walk(definitions, segments) {
        None => exists|k: int|
            #![trigger segments[k]]
            0 <= k < segments.len() && walk(definitions, segments.take(k)) is Some && submodule(
                walk(definitions, segments.take(k))->Some_0,
                segments[k],
            ) is None && match r {
                Err(ResolveLocal::MissingModule(e)) => {
                    &&& e.name@ == segments[k]
                    &&& e.path@ == joined(path + segments.take(k))
                    &&& e.used == used
                },
                _ => false,
            },
        Some(d) => if exists|k: int| first_type(d, ty.name.spec_get(), k) {
            let k = choose|k: int| first_type(d, ty.name.spec_get(), k);
            kind_outcome(declared_kind(d[k])->Some_0, declared_name(d[k]), ty, r)
        } else {
            match r {
                Err(ResolveLocal::MissingDefinition(e)) => {
                    &&& e.name@ == ty.name.spec_get()
                    &&& e.path@ == joined(path + segments)
                    &&& e.used == used
                },
                _ => false,
            }
        },
    }
}

/// The outcome once the definition that `ty` names was found: structs and enums are accepted when
/// the counts of generics agree, type aliases and constants are rejected.
pub open spec fn kind_outcome(
    kind: TypeKind,
    declared: Name,
    ty: ExternalType,
    r: Result<(), ResolveLocal>,
) -> bool {
    let used = span_range(ty.name.spec_span());
    match kind {
        TypeKind::Struct { generics } | TypeKind::Enum { generics } => if generics == usage_count(
            ty,
        ) {
            r is Ok
        } else {
            match r {
                Err(ResolveLocal::GenericsCount(e)) => {
                    &&& e.definition == generics
                    &&& e.usage == usage_count(ty)
                    &&& e.declared == span_range(declared.spec_span())
                    &&& e.used == used
                },
                _ => false,
            }
        },
        TypeKind::Alias => match r {
            Err(ResolveLocal::InvalidKind(e)) => {
                &&& e.kind@ == "type alias"@
                &&& e.declared == span_range(declared.spec_span())
                &&& e.used == used
            },
            _ => false,
        },
        TypeKind::Const => match r {
            Err(ResolveLocal::InvalidKind(e)) => {
                &&& e.kind@ == "constant"@
                &&& e.declared == span_range(declared.spec_span())
                &&& e.used == used
            },
            _ => false,
        },
    }
}

/// There is at most one first definition of a name.
proof fn lemma_first_type_unique(definitions: Seq<Definition>, name: Seq<char>, k: int)
    requires
        first_type(definitions, name, k),
    ensures
        (choose|c: int| first_type(definitions, name, c)) == k,
{
    let c = choose|c: int| first_type(definitions, name, c);
    assert(first_type(definitions, name, c));
    if c < k {
        assert(!is_type_named(definitions[c], name));
    } else if k < c {
        assert(!is_type_named(definitions[k], name));
    }
}

impl<'a> Module<'a> {
    /// Follow the module path of an external type from this module: the module reached, or the
    /// position of the first segment that names no submodule together with the module in which it
    /// was looked up.
    fn follow(&self, ty: &ExternalType<'_>) -> (r: Result<Module<'a>, (usize, Module<'a>)>)
        ensures
            match r {
                Ok(m) => {
                    &&& walk(self.definitions@, path_names(*ty)) == Some(m.definitions@)
                    &&& path_view(m.path@) == path_view(self.path@) + path_names(*ty)
                },
                Err((k, m)) => {
                    &&& k < path_names(*ty).len()
                    &&& walk(self.definitions@, path_names(*ty).take(k as int)) == Some(
                        m.definitions@,
                    )
                    &&& submodule(m.definitions@, path_names(*ty)[k as int]) is None
                    &&& path_view(m.path@) == path_view(self.path@) + path_names(*ty).take(k as int)
                },
            },
    {
        let ghost segments = path_names(*ty);
        let mut module = Module { name: self.name, path: self.path.clone(), definitions: self.definitions };
        let mut k: usize = 0;
        proof {
            assert(segments.take(0) =~= Seq::<Seq<char>>::empty());
            assert(path_view(module.path@) =~= path_view(self.path@) + segments.take(0));
        }
        while k < ty.path.len()
            invariant
                segments == path_names(*ty),
                k <= segments.len() == ty.path@.len(),
                walk(self.definitions@, segments.take(k as int)) == Some(module.definitions@),
                path_view(module.path@) == path_view(self.path@) + segments.take(k as int),
            decreases segments.len() - k,
        {
            let segment = ty.path[k].0.get();
            proof {
                assert(segments.take(k + 1).drop_last() =~= segments.take(k as int));
                assert(segments[k as int] == segment@);
            }
            match module.child(segment) {
                Some(c) => {
                    proof {
                        assert(path_view(c.path@) =~= path_view(self.path@) + segments.take(k + 1));
                    }
                    module = c;
                },
                None => {
                    return Err((k, module));
                },
            }
            k = k + 1;
        }
        proof {
            assert(segments.take(k as int) =~= segments);
        }
        Ok(module)
    }

    /// Resolve an external type within this module and its submodules.
    pub fn resolve_local(&self, ty: &ExternalType<'_>) -> (r: Result<(), ResolveLocal>)
        ensures
            local_outcome(self.definitions@, path_view(self.path@), *ty, r),
    {
        let ghost segments = path_names(*ty);
        let used = ty.name.span().start..ty.name.span().end;
        let module = match self.follow(ty) {
            Ok(m) => m,
            Err((k, m)) => {
                proof {
                    assert(walk(self.definitions@, segments.take(k + 1)) is None) by {
                        assert(segments.take(k + 1).drop_last() =~= segments.take(k as int));
                    }
                    lemma_walk_none(self.definitions@, segments, k as int + 1);
                }
                return Err(
                    ResolveLocal::MissingModule(
                        MissingModule {
                            name: ty.path[k].0.get().to_owned(),
                            path: join_path(&m.path),
                            used,
                        },
                    ),
                );
            },
        };
        let k = match find_type(module.definitions, ty.name.get()) {
            Some(k) => k,
            None => {
                return Err(
                    ResolveLocal::MissingDefinition(
                        MissingDefinition {
                            name: ty.name.get().to_owned(),
                            path: join_path(&module.path),
                            used,
                        },
                    ),
                );
            },
        };
        proof {
            lemma_first_type_unique(module.definitions@, ty.name.spec_get(), k as int);
        }
        let Type { kind, name } = match declared(&module.definitions[k]) {
            Some(found) => found,
            None => {
                return Ok(());
            },
        };
        let declared = name.span().start..name.span().end;
        match kind {
            TypeKind::Struct { generics } | TypeKind::Enum { generics } => {
                let usage = count_usage(ty);
                if generics != usage {
                    Err(
                        ResolveLocal::GenericsCount(
                            GenericsCount { definition: generics, usage, declared, used },
                        ),
                    )
                } else {
                    Ok(())
                }
            },
            TypeKind::Alias => Err(
                ResolveLocal::InvalidKind(InvalidKind { kind: "type alias", declared, used }),
            ),
            TypeKind::Const => Err(
                ResolveLocal::InvalidKind(InvalidKind { kind: "constant", declared, used }),
            ),
        }
    }
}

/// Once a prefix of the path leads nowhere, so does every longer one.
proof fn lemma_walk_none(definitions: Seq<Definition>, path: Seq<Seq<char>>, k: int)
    requires
        0 <= k <= path.len(),
        walk(definitions, path.take(k)) is None,
    ensures
        walk(definitions, path) is None,
    decreases path.len() - k,
{
    if k < path.len() {
        assert(path.take(k + 1).drop_last() =~= path.take(k));
        lemma_walk_none(definitions, path, k + 1);
    } else {
        assert(path.take(k) =~= path);
    }
}

// ------------------------------------------------------------------------------------------------
// Types that are not found locally
// ------------------------------------------------------------------------------------------------

/// A use of an external type that could not be resolved within its own schema.
#[derive(Debug)]
pub struct LocallyMissingType<'a> {
    /// The type as it is used.
    pub external: &'a ExternalType<'a>,
    /// Why local resolution failed.
    pub error: ResolveLocal,
}

/// The external type names one of the generic parameters of the definition it is used in.
pub open spec fn is_generic(external: ExternalType, generics: Option<Generics>) -> bool {
    &&& external.generics is None
    &&& external.path@.len() == 0
    &&& match generics {
        Some(g) => declares_generic(g, external.name.spec_get()),
        None => false,
    }
}

/// One of the generic parameters has the name.
pub open spec fn declares_generic(generics: Generics, name: Seq<char>) -> bool {
    exists|i: int|
        0 <= i < generics.types.items().len() && #[trigger] generics.types.items()[i].spec_get()
            == name
}

/// The external type resolves within the module with the given definitions and path.
pub open spec fn resolves(definitions: Seq<Definition>, path: Seq<Seq<char>>, ty: ExternalType) -> bool {
    local_outcome(definitions, path, ty, Ok(()))
}

/// The uses among `externals` that are neither generic parameters nor resolve locally, each with
/// the scope it is resolved in.
pub open spec fn unresolved<'a>(
    definitions: Seq<Definition<'a>>,
    path: Seq<Seq<char>>,
    generics: Option<Generics<'a>>,
    externals: Seq<ExternalType<'a>>,
) -> Seq<(ExternalType<'a>, Seq<Definition<'a>>, Seq<Seq<char>>)>
    decreases externals.len(),
{
    if externals.len() == 0 {
        Seq::empty()
    } else {
        let prev = unresolved(definitions, path, generics, externals.drop_last());
        let e = externals.last();
        if is_generic(e, generics) || resolves(definitions, path, e) {
            prev
        } else {
            prev.push((e, definitions, path))
        }
    }
}

/// The unresolved uses in a list of types.
pub open spec fn unresolved_in_types<'a>(
    definitions: Seq<Definition<'a>>,
    path: Seq<Seq<char>>,
    generics: Option<Generics<'a>>,
    types: Seq<parser::Type<'a>>,
) -> Seq<(ExternalType<'a>, Seq<Definition<'a>>, Seq<Seq<char>>)>
    decreases types.len(),
{
    if types.len() == 0 {
        Seq::empty()
    } else {
        unresolved_in_types(definitions, path, generics, types.drop_last()) + unresolved(
            definitions,
            path,
            generics,
            externals(types.last()),
        )
    }
}

/// The types of the fields.
pub open spec fn field_types<'a>(fields: Fields<'a>) -> Seq<parser::Type<'a>> {
    match fields {
        Fields::Named(_, named) => named.items().map_values(|f: NamedField<'a>| f.ty),
        Fields::Unnamed(_, unnamed) => unnamed.items().map_values(|f: UnnamedField<'a>| f.ty),
        Fields::Unit => Seq::empty(),
    }
}

/// The unresolved uses in the fields of a list of enum variants.
pub open spec fn unresolved_in_variants<'a>(
    definitions: Seq<Definition<'a>>,
    path: Seq<Seq<char>>,
    generics: Option<Generics<'a>>,
    variants: Seq<Variant<'a>>,
) -> Seq<(ExternalType<'a>, Seq<Definition<'a>>, Seq<Seq<char>>)>
    decreases variants.len(),
{
    if variants.len() == 0 {
        Seq::empty()
    } else {
        unresolved_in_variants(definitions, path, generics, variants.drop_last())
            + unresolved_in_types(definitions, path, generics, field_types(variants.last().fields))
    }
}

/// The unresolved uses in the fields of a struct or enum definition.
pub open spec fn unresolved_in_definition<'a>(
    definitions: Seq<Definition<'a>>,
    path: Seq<Seq<char>>,
    definition: Definition<'a>,
) -> Seq<(ExternalType<'a>, Seq<Definition<'a>>, Seq<Seq<char>>)> {
    match definition {
        Definition::Struct(s) => unresolved_in_types(
            definitions,
            path,
            s.generics,
            field_types(s.fields),
        ),
        Definition::Enum(e) => unresolved_in_variants(
            definitions,
            path,
            e.generics,
            e.variants.items(),
        ),
        _ => Seq::empty(),
    }
}

/// The unresolved uses in the first `k` definitions of a module, not counting submodules.
pub open spec fn unresolved_in_definitions<'a>(
    definitions: Seq<Definition<'a>>,
    path: Seq<Seq<char>>,
    k: int,
) -> Seq<(ExternalType<'a>, Seq<Definition<'a>>, Seq<Seq<char>>)>
    decreases k,
{
    if k <= 0 {
        Seq::empty()
    } else {
        unresolved_in_definitions(definitions, path, k - 1) + unresolved_in_definition(
            definitions,
            path,
            definitions[k - 1],
        )
    }
}

/// The entries record the unresolved uses in order, each with the error that local resolution
/// gives for it.
pub open spec fn records(
    entries: Seq<LocallyMissingType>,
    expected: Seq<(ExternalType, Seq<Definition>, Seq<Seq<char>>)>,
) -> bool {
    &&& entries.len() == expected.len()
    &&& forall|i: int|
        0 <= i < entries.len() ==> {
            &&& *entries[i].external == #[trigger] expected[i].0
            &&& local_outcome(expected[i].1, expected[i].2, expected[i].0, Err(entries[i].error))
        }
}

/// Records of two lists together record the two lists together.
proof fn lemma_records_append(
    e1: Seq<LocallyMissingType>,
    x1: Seq<(ExternalType, Seq<Definition>, Seq<Seq<char>>)>,
    e2: Seq<LocallyMissingType>,
    x2: Seq<(ExternalType, Seq<Definition>, Seq<Seq<char>>)>,
)
    requires
        records(e1, x1),
        records(e2, x2),
    ensures
        records(e1 + e2, x1 + x2),
{
    assert forall|i: int| 0 <= i < e1.len() + e2.len() implies {
        &&& *(e1 + e2)[i].external == #[trigger] (x1 + x2)[i].0
        &&& local_outcome((x1 + x2)[i].1, (x1 + x2)[i].2, (x1 + x2)[i].0, Err((e1 + e2)[i].error))
    } by {
        if i < e1.len() {
            assert(*e1[i].external == x1[i].0);
        } else {
            assert(*e2[i - e1.len()].external == x2[i - e1.len()].0);
        }
    }
}

/// The external type names one of the generic parameters of the definition it is used in.
fn check_generic(external: &ExternalType<'_>, generics: &Option<Generics<'_>>) -> (r: bool)
    ensures
        r == is_generic(*external, *generics),
{
    if external.generics.is_some() || external.path.len() > 0 {
        return false;
    }
    match generics {
        Some(g) => {
            let ghost items = g.types.items();
            let mut iter = g.types.values();
            let ghost mut k: int = 0;
            loop
                invariant
                    items == g.types.items(),
                    *generics == Some(*g),
                    external.generics is None,
                    external.path@.len() == 0,
                    0 <= k <= items.len(),
                    iter.remaining() == items.skip(k),
                    forall|i: int| 0 <= i < k ==> #[trigger] items[i].spec_get() != external.name.spec_get(),
                ensures
                    forall|i: int| 0 <= i < items.len() ==> #[trigger] items[i].spec_get() != external.name.spec_get(),
                decreases items.len() - k,
            {
                let name = match iter.next() {
                    Some(n) => n,
                    None => break,
                };
                proof {
                    assert(items.skip(k).len() == items.len() - k);
                    assert(k < items.len());
                    assert(*name == items[k]);
                }
                if same_str(name.get(), external.name.get()) {
                    proof {
                        assert(items[k].spec_get() == external.name.spec_get());
                        assert(g.types.items()[k].spec_get() == external.name.spec_get());
                        assert(declares_generic(*g, external.name.spec_get()));
                    }
                    return true;
                }
                proof {
                    assert(items.skip(k + 1) =~= items.skip(k).drop_first());
                    k = k + 1;
                }
            }
            false
        },
        None => false,
    }
}

/// Resolve every external type that `ty` uses (other than generic parameters) within `module`,
/// and record those that fail.
fn resolve_in_type<'a>(
    module: &Module<'a>,
    ty: &'a parser::Type<'a>,
    generics: &Option<Generics<'a>>,
    missing: &mut Vec<LocallyMissingType<'a>>,
)
    ensures
        final(missing)@.take(old(missing)@.len() as int) == old(missing)@,
        final(missing)@.len() >= old(missing)@.len(),
        records(
            final(missing)@.skip(old(missing)@.len() as int),
            unresolved(module.definitions@, path_view(module.path@), *generics, externals(*ty)),
        ),
{
    let ghost defs = module.definitions@;
    let ghost path = path_view(module.path@);
    let ghost start = missing@.len() as int;
    let ghost before = missing@;
    let mut found: Vec<&'a ExternalType<'a>> = Vec::new();
    collect_externals(ty, &mut found);
    let ghost es = externals(*ty);
    proof {
        assert(found@.map_values(|e: &ExternalType<'a>| *e) =~= es);
    }
    let mut i: usize = 0;
    while i < found.len()
        invariant
            found@.map_values(|e: &ExternalType<'a>| *e) == es,
            i <= found@.len(),
            defs == module.definitions@,
            path == path_view(module.path@),
            0 <= start <= missing@.len(),
            missing@.take(start) == before,
            records(missing@.skip(start), unresolved(defs, path, *generics, es.take(i as int))),
        decreases found@.len() - i,
    {
        let e = found[i];
        proof {
            assert(es[i as int] == *e);
            assert(es.take(i + 1).drop_last() =~= es.take(i as int));
        }
        let ghost prev = missing@;
        if !check_generic(e, generics) {
            match module.resolve_local(e) {
                Ok(()) => {},
                Err(error) => {
                    missing.push(LocallyMissingType { external: e, error });
                    proof {
                        assert(missing@.len() == prev.len() + 1);
                        assert(missing@.drop_last() =~= prev);
                        assert(prev.len() >= start);
                        let x = missing@.last();
                        assert(missing@ =~= prev.push(x));
                        assert(prev.push(x).skip(start) =~= prev.skip(start).push(x));
                        assert(prev.push(x).take(start) =~= prev.take(start));
                    }
                },
            }
        }
        proof {
            let u = unresolved(defs, path, *generics, es.take(i + 1));
            assert(u == if is_generic(*e, *generics) || resolves(defs, path, *e) {
                unresolved(defs, path, *generics, es.take(i as int))
            } else {
                unresolved(defs, path, *generics, es.take(i as int)).push((*e, defs, path))
            });
            assert(records(missing@.skip(start), u)) by {
                let m = missing@.skip(start);
                if !is_generic(*e, *generics) && !resolves(defs, path, *e) {
                    assert(prev.skip(start).len() + 1 == m.len());
                    assert forall|j: int| 0 <= j < m.len() implies {
                        &&& *m[j].external == #[trigger] u[j].0
                        &&& local_outcome(u[j].1, u[j].2, u[j].0, Err(m[j].error))
                    } by {
                        if j < m.len() - 1 {
                            assert(m[j] == prev.skip(start)[j]);
                        }
                    }
                }
            }
        }
        i = i + 1;
    }
    proof {
        assert(es.take(i as int) =~= es);
    }
}

/// Records made in two steps, one after the other, record both lists in order.
proof fn lemma_records_extend(
    mid: Seq<LocallyMissingType>,
    after: Seq<LocallyMissingType>,
    start: int,
    first: Seq<(ExternalType, Seq<Definition>, Seq<Seq<char>>)>,
    second: Seq<(ExternalType, Seq<Definition>, Seq<Seq<char>>)>,
)
    requires
        0 <= start <= mid.len() <= after.len(),
        after.take(mid.len() as int) == mid,
        records(mid.skip(start), first),
        records(after.skip(mid.len() as int), second),
    ensures
        records(after.skip(start), first + second),
        after.take(start) == mid.take(start),
{
    assert(after.skip(start) =~= mid.skip(start) + after.skip(mid.len() as int)) by {
        assert forall|i: int| 0 <= i < after.len() - start implies after.skip(start)[i] == (mid.skip(
            start,
        ) + after.skip(mid.len() as int))[i] by {
            if start + i < mid.len() {
                assert(after.take(mid.len() as int)[start + i] == after[start + i]);
            }
        }
    }
    lemma_records_append(mid.skip(start), first, after.skip(mid.len() as int), second);
    assert(after.take(start) =~= mid.take(start)) by {
        assert forall|i: int| 0 <= i < start implies after.take(start)[i] == mid.take(start)[i] by {
            assert(after.take(mid.len() as int)[i] == after[i]);
        }
    }
}

/// References to the types of the fields, in order.
fn field_type_refs<'a>(fields: &'a Fields<'a>) -> (r: Vec<&'a parser::Type<'a>>)
    ensures
        r@.map_values(|t: &parser::Type<'a>| *t) == field_types(*fields),
{
    let mut out: Vec<&'a parser::Type<'a>> = Vec::new();
    match fields {
        Fields::Named(_, named) => {
            let ghost items = named.items();
            let mut iter = named.values();
            loop
                invariant
                    items == named.items(),
                    out@.len() + iter.remaining().len() == items.len(),
                    iter.remaining() == items.skip(out@.len() as int),
                    forall|i: int| 0 <= i < out@.len() ==> *#[trigger] out@[i] == items[i].ty,
                ensures
                    out@.len() == items.len(),
                    forall|i: int| 0 <= i < out@.len() ==> *#[trigger] out@[i] == items[i].ty,
                decreases iter.remaining().len(),
            {
                let field = match iter.next() {
                    Some(f) => f,
                    None => break,
                };
                proof {
                    assert(*field == items[out@.len() as int]);
                    assert(items.skip(out@.len() + 1 as int) =~= items.skip(out@.len() as int).drop_first());
                }
                out.push(&field.ty);
            }
            proof {
                assert(out@.map_values(|t: &parser::Type<'a>| *t) =~= field_types(*fields));
            }
        },
        Fields::Unnamed(_, unnamed) => {
            let ghost items = unnamed.items();
            let mut iter = unnamed.values();
            loop
                invariant
                    items == unnamed.items(),
                    out@.len() + iter.remaining().len() == items.len(),
                    iter.remaining() == items.skip(out@.len() as int),
                    forall|i: int| 0 <= i < out@.len() ==> *#[trigger] out@[i] == items[i].ty,
                ensures
                    out@.len() == items.len(),
                    forall|i: int| 0 <= i < out@.len() ==> *#[trigger] out@[i] == items[i].ty,
                decreases iter.remaining().len(),
            {
                let field = match iter.next() {
                    Some(f) => f,
                    None => break,
                };
                proof {
                    assert(*field == items[out@.len() as int]);
                    assert(items.skip(out@.len() + 1 as int) =~= items.skip(out@.len() as int).drop_first());
                }
                out.push(&field.ty);
            }
            proof {
                assert(out@.map_values(|t: &parser::Type<'a>| *t) =~= field_types(*fields));
            }
        },
        Fields::Unit => {
            proof {
                assert(out@.map_values(|t: &parser::Type<'a>| *t) =~= field_types(*fields));
            }
        },
    }
    out
}

/// Resolve the external types used by a list of types within `module`, and record those that
/// fail.
fn resolve_in_types<'a>(
    module: &Module<'a>,
    types: &Vec<&'a parser::Type<'a>>,
    generics: &Option<Generics<'a>>,
    missing: &mut Vec<LocallyMissingType<'a>>,
)
    ensures
        final(missing)@.take(old(missing)@.len() as int) == old(missing)@,
        final(missing)@.len() >= old(missing)@.len(),
        records(
            final(missing)@.skip(old(missing)@.len() as int),
            unresolved_in_types(
                module.definitions@,
                path_view(module.path@),
                *generics,
                types@.map_values(|t: &parser::Type<'a>| *t),
            ),
        ),
{
    let ghost defs = module.definitions@;
    let ghost path = path_view(module.path@);
    let ghost tys = types@.map_values(|t: &parser::Type<'a>| *t);
    let ghost start = missing@.len() as int;
    let ghost before = missing@;
    let mut k: usize = 0;
    proof {
        assert(missing@.skip(start) =~= Seq::<LocallyMissingType>::empty());
        assert(missing@.take(start) =~= before);
    }
    while k < types.len()
        invariant
            tys == types@.map_values(|t: &parser::Type<'a>| *t),
            defs == module.definitions@,
            path == path_view(module.path@),
            k <= types@.len(),
            0 <= start <= missing@.len(),
            missing@.take(start) == before,
            records(missing@.skip(start), unresolved_in_types(defs, path, *generics, tys.take(k as int))),
        decreases types@.len() - k,
    {
        let ghost mid = missing@;
        resolve_in_type(module, types[k], generics, missing);
        proof {
            assert(tys.take(k + 1).drop_last() =~= tys.take(k as int));
            assert(tys.take(k + 1).last() == *types@[k as int]);
            lemma_records_extend(
                mid,
                missing@,
                start,
                unresolved_in_types(defs, path, *generics, tys.take(k as int)),
                unresolved(defs, path, *generics, externals(*types@[k as int])),
            );
        }
        k = k + 1;
    }
    proof {
        assert(tys.take(k as int) =~= tys);
    }
}

/// Resolve the external types used in the fields of a struct or enum definition within `module`,
/// and record those that fail.
fn resolve_in_definition<'a>(
    module: &Module<'a>,
    definition: &'a Definition<'a>,
    missing: &mut Vec<LocallyMissingType<'a>>,
)
    ensures
        final(missing)@.take(old(missing)@.len() as int) == old(missing)@,
        final(missing)@.len() >= old(missing)@.len(),
        records(
            final(missing)@.skip(old(missing)@.len() as int),
            unresolved_in_definition(module.definitions@, path_view(module.path@), *definition),
        ),
{
    let ghost defs = module.definitions@;
    let ghost path = path_view(module.path@);
    let ghost start = missing@.len() as int;
    let ghost before = missing@;
    match definition {
        Definition::Struct(s) => {
            let types = field_type_refs(&s.fields);
            resolve_in_types(module, &types, &s.generics, missing);
        },
        Definition::Enum(e) => {
            let ghost variants = e.variants.items();
            let mut iter = e.variants.values();
            let ghost mut k: int = 0;
            proof {
                assert(missing@.skip(start) =~= Seq::<LocallyMissingType>::empty());
                assert(missing@.take(start) =~= before);
            }
            loop
                invariant
                    *definition == Definition::Enum(*e),
                    variants == e.variants.items(),
                    defs == module.definitions@,
                    path == path_view(module.path@),
                    0 <= k <= variants.len(),
                    iter.remaining() == variants.skip(k),
                    0 <= start <= missing@.len(),
                    missing@.take(start) == before,
                    records(
                        missing@.skip(start),
                        unresolved_in_variants(defs, path, e.generics, variants.take(k)),
                    ),
                ensures
                    k == variants.len(),
                    0 <= start <= missing@.len(),
                    missing@.take(start) == before,
                    records(
                        missing@.skip(start),
                        unresolved_in_variants(defs, path, e.generics, variants.take(k)),
                    ),
                decreases variants.len() - k,
            {
                let variant = match iter.next() {
                    Some(v) => v,
                    None => break,
                };
                proof {
                    assert(variants.skip(k).len() == variants.len() - k);
                    assert(*variant == variants[k]);
                }
                let types = field_type_refs(&variant.fields);
                let ghost mid = missing@;
                resolve_in_types(module, &types, &e.generics, missing);
                proof {
                    assert(variants.take(k + 1).drop_last() =~= variants.take(k));
                    assert(variants.take(k + 1).last() == variants[k]);
                    lemma_records_extend(
                        mid,
                        missing@,
                        start,
                        unresolved_in_variants(defs, path, e.generics, variants.take(k)),
                        unresolved_in_types(defs, path, e.generics, field_types(variants[k].fields)),
                    );
                    assert(variants.skip(k + 1) =~= variants.skip(k).drop_first());
                    k = k + 1;
                }
            }
            proof {
                assert(variants.take(k) =~= variants);
            }
        },
        _ => {
            proof {
                assert(missing@.skip(start) =~= Seq::<LocallyMissingType>::empty());
                assert(missing@.take(start) =~= before);
            }
        },
    }
}

/// The unresolved uses in a module: those in its own definitions, then those in each of its
/// submodules (a submodule shadowed by a later one of the same name does not count).
pub open spec fn unresolved_in_module<'a>(
    definitions: Seq<Definition<'a>>,
    path: Seq<Seq<char>>,
) -> Seq<(ExternalType<'a>, Seq<Definition<'a>>, Seq<Seq<char>>)>
    decreases definitions, definitions.len() + 1,
{
    unresolved_in_definitions(definitions, path, definitions.len() as int)
        + unresolved_in_submodules(definitions, path, definitions.len() as int)
}

/// The unresolved uses in the submodules declared among the first `k` definitions.
pub open spec fn unresolved_in_submodules<'a>(
    definitions: Seq<Definition<'a>>,
    path: Seq<Seq<char>>,
    k: int,
) -> Seq<(ExternalType<'a>, Seq<Definition<'a>>, Seq<Seq<char>>)>
    decreases definitions, k,
{
    if 0 < k <= definitions.len() {
        let prev = unresolved_in_submodules(definitions, path, k - 1);
        match definitions[k - 1] {
            Definition::Module(m) => if last_module(definitions, m.name.spec_get(), k - 1) {
                proof {
                    lemma_module_decreases(definitions, k - 1);
                }
                prev + unresolved_in_module(m.definitions@, path.push(m.name.spec_get()))
            } else {
                prev
            },
            _ => prev,
        }
    } else {
        Seq::empty()
    }
}

/// The definitions of a submodule are structurally smaller than those of its parent.
pub proof fn lemma_module_decreases(definitions: Seq<Definition>, k: int)
    requires
        0 <= k < definitions.len(),
        definitions[k] is Module,
    ensures
        decreases_to!(definitions => module_definitions(definitions[k])),
{
    let d = definitions[k];
    match d {
        Definition::Module(m) => {
            assert(decreases_to!(definitions => d));
            assert(decreases_to!(d => m));
            assert(decreases_to!(m => m.definitions));
            assert(decreases_to!(m.definitions => m.definitions@));
        },
        _ => {},
    }
}

/// Whether the module declared at position `k` is the last one of its name.
fn is_last_module(definitions: &[Definition<'_>], k: usize, name: &str) -> (r: bool)
    requires
        k < definitions@.len(),
        is_module_named(definitions@[k as int], name@),
    ensures
        r == last_module(definitions@, name@, k as int),
{
    let n = definitions.len();
    let mut j: usize = k + 1;
    while j < n
        invariant
            n == definitions@.len(),
            k < j <= definitions@.len(),
            forall|i: int| k < i < j ==> !is_module_named(#[trigger] definitions@[i], name@),
        decreases definitions@.len() - j,
    {
        match &definitions[j] {
            Definition::Module(m) => {
                if same_str(m.name.get(), name) {
                    return false;
                }
            },
            _ => {},
        }
        j = j + 1;
    }
    true
}

/// Resolve every external type used in the struct and enum definitions of `module` and its
/// submodules, and record, in order, each use that cannot be resolved locally together with the
/// reason.
pub fn resolve_module_types<'a>(module: &Module<'a>, missing: &mut Vec<LocallyMissingType<'a>>)
    ensures
        final(missing)@.take(old(missing)@.len() as int) == old(missing)@,
        final(missing)@.len() >= old(missing)@.len(),
        records(
            final(missing)@.skip(old(missing)@.len() as int),
            unresolved_in_module(module.definitions@, path_view(module.path@)),
        ),
    decreases module.definitions@,
{
    let ghost defs = module.definitions@;
    let ghost path = path_view(module.path@);
    let ghost start = missing@.len() as int;
    let ghost before = missing@;
    let n = module.definitions.len();
    let mut k: usize = 0;
    proof {
        assert(missing@.skip(start) =~= Seq::<LocallyMissingType>::empty());
        assert(missing@.take(start) =~= before);
    }
    while k < n
        invariant
            n == defs.len(),
            defs == module.definitions@,
            path == path_view(module.path@),
            k <= n,
            0 <= start <= missing@.len(),
            missing@.take(start) == before,
            records(missing@.skip(start), unresolved_in_definitions(defs, path, k as int)),
        decreases n - k,
    {
        let ghost mid = missing@;
        resolve_in_definition(module, &module.definitions[k], missing);
        proof {
            lemma_records_extend(
                mid,
                missing@,
                start,
                unresolved_in_definitions(defs, path, k as int),
                unresolved_in_definition(defs, path, defs[k as int]),
            );
        }
        k = k + 1;
    }
    let ghost own = unresolved_in_definitions(defs, path, n as int);
    let mut k: usize = 0;
    proof {
        assert(own + unresolved_in_submodules(defs, path, 0) =~= own);
    }
    while k < n
        invariant
            n == defs.len(),
            defs == module.definitions@,
            path == path_view(module.path@),
            own == unresolved_in_definitions(defs, path, n as int),
            k <= n,
            0 <= start <= missing@.len(),
            missing@.take(start) == before,
            records(missing@.skip(start), own + unresolved_in_submodules(defs, path, k as int)),
        decreases n - k,
    {
        let ghost mid = missing@;
        let ghost prev = unresolved_in_submodules(defs, path, k as int);
        match &module.definitions[k] {
            Definition::Module(m) => {
                if is_last_module(module.definitions, k, m.name.get()) {
                    let mut path_to = module.path.clone();
                    path_to.push(m.name.get());
                    let child = Module {
                        name: m.name.get(),
                        path: path_to,
                        definitions: m.definitions.as_slice(),
                    };
                    proof {
                        assert(path_view(child.path@) =~= path.push(m.name.spec_get()));
                        lemma_module_decreases(defs, k as int);
                        assert(module_definitions(defs[k as int]) == child.definitions@);
                    }
                    resolve_module_types(&child, missing);
                    proof {
                        lemma_records_extend(
                            mid,
                            missing@,
                            start,
                            own + prev,
                            unresolved_in_module(child.definitions@, path_view(child.path@)),
                        );
                        assert(own + prev + unresolved_in_module(
                            child.definitions@,
                            path_view(child.path@),
                        ) =~= own + unresolved_in_submodules(defs, path, k + 1));
                    }
                }
            },
            _ => {},
        }
        k = k + 1;
    }
}

// ------------------------------------------------------------------------------------------------
// Imports and remote types
// ------------------------------------------------------------------------------------------------

/// Failed to resolve an import of another schema.
#[derive(Debug)]
pub enum ResolveImport {
    /// The referenced schema doesn't exist.
    MissingSchema(MissingSchema),
    /// The referenced module inside the schema doesn't exist.
    MissingModule(MissingModule),
    /// The referenced type inside the module doesn't exist.
    MissingDefinition(MissingDefinition),
    /// The referenced definition can't be used as type.
    InvalidKind(InvalidKind),
}

/// The referenced schema wasn't found in the list of available schemas.
#[derive(Debug)]
pub struct MissingSchema {
    /// Name of the missing schema.
    pub name: String,
    /// Where the schema was referenced.
    pub used: Range<usize>,
}

/// Failed to resolve a type in another schema.
#[derive(Debug)]
pub enum ResolveRemote {
    /// No matching import for the type exists.
    MissingImport(MissingImport),
    /// The referenced module inside the schema doesn't exist.
    MissingModule(MissingModule),
    /// The referenced type inside the module doesn't exist.
    MissingDefinition(MissingDefinition),
    /// The amount of generics between declaration and use side doesn't match.
    GenericsCount(RemoteGenericsCount),
    /// The referenced definition can't be used as type.
    InvalidKind(RemoteInvalidKind),
}

/// None of the existing imports match for the referenced type.
#[derive(Debug)]
pub struct MissingImport {
    /// Name of the type.
    pub ty: String,
    /// Where the type was referenced.
    pub used: Range<usize>,
}

/// Like [`GenericsCount`], the amount of generics between declaration side and use side didn't
/// match, but split into two separate errors to allow error reporting in separate schema files.
#[derive(Debug)]
pub struct RemoteGenericsCount {
    /// Amount of generics on the use side.
    pub amount: usize,
    /// Where the type was referenced.
    pub used: Range<usize>,
    /// Error for the declaration side.
    pub declaration: [RemoteGenericsCountDeclaration; 1],
}

/// Declaration side error for the [`RemoteGenericsCount`].
#[derive(Debug)]
pub struct RemoteGenericsCountDeclaration {
    /// Amount of generics on the declaration side.
    pub amount: usize,
    /// Where the type was declared.
    pub used: Range<usize>,
}

/// Like [`InvalidKind`], the referenced definition was found yet is not a type that can be
/// referenced, but split into to separate errors to allow error reporting in separate schema files.
#[derive(Debug)]
pub struct RemoteInvalidKind {
    /// The kind of definition that was found.
    pub kind: &'static str,
    /// Where the definition was referenced.
    pub used: Range<usize>,
    /// Error for the declaration side.
    pub declaration: [RemoteInvalidKindDeclaration; 1],
}

/// Declaration side error for the [`RemoteInvalidKind`].
#[derive(Debug)]
pub struct RemoteInvalidKindDeclaration {
    /// The kind of definition that is declared.
    pub kind: &'static str,
    /// Where the definition was declared.
    pub used: Range<usize>,
}

/// Specific reason why type resolution failed, split into distinct resolution steps.
#[derive(Debug)]
pub enum ResolveError {
    /// Local type resolution failed.
    Local(ResolveLocal),
    /// Import statement resolution failed.
    Import(ResolveImport),
    /// Remote (types in another schema) type resolution failed.
    Remote(Box<ResolveRemote>),
}

/// What an import statement refers to.
pub enum ResolvedImport<'a> {
    /// A whole module, whose types are then used with the module's name as path prefix.
    Module(Module<'a>),
    /// A single struct or enum.
    Type {
        /// Name of the schema that declares it.
        schema: &'a str,
        /// Name of the type.
        name: Name<'a>,
        /// Count of its generic type parameters.
        generics: usize,
    },
}

impl<'a> Module<'a> {
    /// Follow a path of submodule names from this module: the module reached, or the position of
    /// the first name that names no submodule together with the module in which it was looked
    /// up.
    fn follow_names(&self, names: &Vec<&str>) -> (r: Result<Module<'a>, (usize, Module<'a>)>)
        ensures
            match r {
                Ok(m) => {
                    &&& walk(self.definitions@, path_view(names@)) == Some(m.definitions@)
                    &&& path_view(m.path@) == path_view(self.path@) + path_view(names@)
                    &&& m.name@ == if names@.len() == 0 {
                        self.name@
                    } else {
                        names@.last()@
                    }
                },
                Err((k, m)) => {
                    &&& k < names@.len()
                    &&& walk(self.definitions@, path_view(names@).take(k as int)) == Some(
                        m.definitions@,
                    )
                    &&& submodule(m.definitions@, names@[k as int]@) is None
                    &&& path_view(m.path@) == path_view(self.path@) + path_view(names@).take(
                        k as int,
                    )
                },
            },
    {
        let ghost segments = path_view(names@);
        let mut module = Module { name: self.name, path: self.path.clone(), definitions: self.definitions };
        let mut k: usize = 0;
        proof {
            assert(segments.take(0) =~= Seq::<Seq<char>>::empty());
            assert(path_view(module.path@) =~= path_view(self.path@) + segments.take(0));
        }
        while k < names.len()
            invariant
                segments == path_view(names@),
                k <= segments.len() == names@.len(),
                walk(self.definitions@, segments.take(k as int)) == Some(module.definitions@),
                path_view(module.path@) == path_view(self.path@) + segments.take(k as int),
                module.name@ == if k == 0 {
                    self.name@
                } else {
                    names@[k - 1]@
                },
            decreases segments.len() - k,
        {
            proof {
                assert(segments.take(k + 1).drop_last() =~= segments.take(k as int));
            }
            match module.child(names[k]) {
                Some(c) => {
                    proof {
                        assert(path_view(c.path@) =~= path_view(self.path@) + segments.take(k + 1));
                    }
                    module = c;
                },
                None => {
                    return Err((k, module));
                },
            }
            k = k + 1;
        }
        proof {
            assert(segments.take(k as int) =~= segments);
        }
        Ok(module)
    }
}

/// The names of the segments of an import path after the schema name.
pub open spec fn import_modules(import: Import) -> Seq<Seq<char>> {
    if import.segments@.len() < 2 {
        Seq::empty()
    } else {
        import.segments@.skip(1).map_values(|n: Name| n.spec_get())
    }
}

/// The outcome of resolving an import in the schema whose root module has the given definitions
/// and path: the segments after the schema name lead through submodules; an import of a single
/// element must name a struct or enum there, otherwise the module itself is imported.
pub open spec fn import_outcome<'a>(
    definitions: Seq<Definition<'a>>,
    path: Seq<Seq<char>>,
    import: Import,
    r: Result<ResolvedImport<'a>, ResolveImport>,
) -> bool {
    let modules = import_modules(import);
    match walk(definitions, modules) {
        None => exists|k: int|
            #![trigger modules[k]]
            0 <= k < modules.len() && walk(definitions, modules.take(k)) is Some && submodule(
                walk(definitions, modules.take(k))->Some_0,
                modules[k],
            ) is None && match r {
                Err(ResolveImport::MissingModule(e)) => {
                    &&& e.name@ == modules[k]
                    &&& e.path@ == joined(path + modules.take(k))
                    &&& e.used == span_range(import.segments@[k + 1].spec_span())
                },
                _ => false,
            },
        Some(d) => match import.element {
            Some((_, element)) => if exists|k: int| first_type(d, element.spec_get(), k) {
                let k = choose|k: int| first_type(d, element.spec_get(), k);
                let declared = span_range(declared_name(d[k]).spec_span());
                let used = span_range(element.spec_span());
                match declared_kind(d[k])->Some_0 {
                    TypeKind::Struct { generics } | TypeKind::Enum { generics } => match r {
                        Ok(ResolvedImport::Type { name, generics: g, .. }) => {
                            &&& name.spec_get() == declared_name(d[k]).spec_get()
                            &&& name.spec_span() == declared_name(d[k]).spec_span()
                            &&& g == generics
                        },
                        _ => false,
                    },
                    TypeKind::Alias => match r {
                        Err(ResolveImport::InvalidKind(e)) => {
                            &&& e.kind@ == "alias"@
                            &&& e.declared == declared
                            &&& e.used == used
                        },
                        _ => false,
                    },
                    TypeKind::Const => match r {
                        Err(ResolveImport::InvalidKind(e)) => {
                            &&& e.kind@ == "const"@
                            &&& e.declared == declared
                            &&& e.used == used
                        },
                        _ => false,
                    },
                }
            } else {
                match r {
                    Err(ResolveImport::MissingDefinition(e)) => {
                        &&& e.name@ == element.spec_get()
                        &&& e.path@ == joined(path + modules)
                        &&& e.used == span_range(element.spec_span())
                    },
                    _ => false,
                }
            },
            None => match r {
                Ok(ResolvedImport::Module(m)) => {
                    &&& m.definitions@ == d
                    &&& path_view(m.path@) == path + modules
                },
                _ => false,
            },
        },
    }
}

impl<'a> Module<'a> {
    /// Resolve an import statement in this schema root: the module it names, or the single type.
    pub fn resolve_import(&self, import: &'a Import<'a>) -> (r: Result<ResolvedImport<'a>, ResolveImport>)
        ensures
            import_outcome(self.definitions@, path_view(self.path@), *import, r),
    {
        let ghost modules = import_modules(*import);
        let mut names: Vec<&str> = Vec::new();
        let mut k: usize = 1;
        while k < import.segments.len()
            invariant
                1 <= k <= import.segments@.len() || (k == 1 && import.segments@.len() == 0),
                names@.len() == k - 1,
                forall|i: int| 0 <= i < names@.len() ==> #[trigger] names@[i]@ == import.segments@[i + 1].spec_get(),
            decreases import.segments@.len() - k,
        {
            names.push(import.segments[k].get());
            k = k + 1;
        }
        proof {
            assert(path_view(names@) =~= modules);
        }
        let module = match self.follow_names(&names) {
            Ok(m) => m,
            Err((k, m)) => {
                proof {
                    assert(walk(self.definitions@, modules.take(k + 1)) is None) by {
                        assert(modules.take(k + 1).drop_last() =~= modules.take(k as int));
                    }
                    lemma_walk_none(self.definitions@, modules, k as int + 1);
                }
                let segment = &import.segments[k + 1];
                return Err(
                    ResolveImport::MissingModule(
                        MissingModule {
                            name: segment.get().to_owned(),
                            path: join_path(&m.path),
                            used: segment.span().start..segment.span().end,
                        },
                    ),
                );
            },
        };
        match &import.element {
            Some((_, element)) => {
                let used = element.span().start..element.span().end;
                let k = match find_type(module.definitions, element.get()) {
                    Some(k) => k,
                    None => {
                        return Err(
                            ResolveImport::MissingDefinition(
                                MissingDefinition {
                                    name: element.get().to_owned(),
                                    path: join_path(&module.path),
                                    used,
                                },
                            ),
                        );
                    },
                };
                proof {
                    lemma_first_type_unique(module.definitions@, element.spec_get(), k as int);
                }
                let Type { kind, name } = match declared(&module.definitions[k]) {
                    Some(found) => found,
                    None => {
                        return Ok(ResolvedImport::Module(module));
                    },
                };
                let declared = name.span().start..name.span().end;
                match kind {
                    TypeKind::Alias => Err(
                        ResolveImport::InvalidKind(InvalidKind { kind: "alias", declared, used }),
                    ),
                    TypeKind::Const => Err(
                        ResolveImport::InvalidKind(InvalidKind { kind: "const", declared, used }),
                    ),
                    TypeKind::Struct { generics } | TypeKind::Enum { generics } => Ok(
                        ResolvedImport::Type { schema: self.name, name, generics },
                    ),
                }
            },
            None => Ok(ResolvedImport::Module(module)),
        }
    }
}

/// The module in which a type used through an imported module is looked up: the imported module
/// itself when the path starts with its name (the remaining segments are not followed), else the
/// module reached by following the whole path.
pub open spec fn remote_start(name: Seq<char>, ty: ExternalType) -> bool {
    path_names(ty).len() > 0 && path_names(ty)[0] == name
}

/// The outcome of resolving `ty` in an imported module with the given name, definitions and path.
pub open spec fn remote_outcome(
    name: Seq<char>,
    definitions: Seq<Definition>,
    path: Seq<Seq<char>>,
    ty: ExternalType,
    r: Result<(), ResolveRemote>,
) -> bool {
    let segments = path_names(ty);
    if remote_start(name, ty) {
        remote_found_outcome(definitions, path, ty, r)
    } else {
        match walk(definitions, segments) {
            None => exists|k: int|
                #![trigger segments[k]]
                0 <= k < segments.len() && walk(definitions, segments.take(k)) is Some && submodule(
                    walk(definitions, segments.take(k))->Some_0,
                    segments[k],
                ) is None && match r {
                    Err(ResolveRemote::MissingModule(e)) => {
                        &&& e.name@ == segments[k]
                        &&& e.path@ == joined(path + segments.take(k))
                        &&& e.used == span_range(ty.name.spec_span())
                    },
                    _ => false,
                },
            Some(d) => remote_found_outcome(d, path + segments, ty, r),
        }
    }
}

/// The outcome of looking `ty` up among the definitions of the module reached, which has the given
/// path.
pub open spec fn remote_found_outcome(
    definitions: Seq<Definition>,
    path: Seq<Seq<char>>,
    ty: ExternalType,
    r: Result<(), ResolveRemote>,
) -> bool {
    let used = span_range(ty.name.spec_span());
    if exists|k: int| first_type(definitions, ty.name.spec_get(), k) {
        let k = choose|k: int| first_type(definitions, ty.name.spec_get(), k);
        let declared = span_range(declared_name(definitions[k]).spec_span());
        match declared_kind(definitions[k])->Some_0 {
            TypeKind::Struct { generics } | TypeKind::Enum { generics } => if generics
                == usage_count(ty) {
                r is Ok
            } else {
                match r {
                    Err(ResolveRemote::GenericsCount(e)) => {
                        &&& e.amount == usage_count(ty)
                        &&& e.used == used
                        &&& e.declaration[0].amount == generics
                        &&& e.declaration[0].used == declared
                    },
                    _ => false,
                }
            },
            TypeKind::Alias => match r {
                Err(ResolveRemote::InvalidKind(e)) => {
                    &&& e.kind@ == "type alias"@
                    &&& e.used == used
                    &&& e.declaration[0].kind@ == "type alias"@
                    &&& e.declaration[0].used == declared
                },
                _ => false,
            },
            TypeKind::Const => match r {
                Err(ResolveRemote::InvalidKind(e)) => {
                    &&& e.kind@ == "constant"@
                    &&& e.used == used
                    &&& e.declaration[0].kind@ == "constant"@
                    &&& e.declaration[0].used == declared
                },
                _ => false,
            },
        }
    } else {
        match r {
            Err(ResolveRemote::MissingDefinition(e)) => {
                &&& e.name@ == ty.name.spec_get()
                &&& e.path@ == joined(path)
                &&& e.used == used
            },
            _ => false,
        }
    }
}

/// The names of the module path of an external type.
fn path_strs<'b>(ty: &ExternalType<'b>) -> (r: Vec<&'b str>)
    ensures
        path_view(r@) == path_names(*ty),
{
    let mut names: Vec<&'b str> = Vec::new();
    let mut k: usize = 0;
    while k < ty.path.len()
        invariant
            k <= ty.path@.len(),
            names@.len() == k,
            forall|i: int| 0 <= i < k ==> #[trigger] names@[i]@ == ty.path@[i].0.spec_get(),
        decreases ty.path@.len() - k,
    {
        names.push(ty.path[k].0.get());
        k = k + 1;
    }
    proof {
        assert(path_view(names@) =~= path_names(*ty));
    }
    names
}

impl<'a> Module<'a> {
    /// Resolve a type of another schema in this (imported) module.
    pub fn resolve_remote(&self, ty: &ExternalType<'_>) -> (r: Result<(), ResolveRemote>)
        ensures
            remote_outcome(self.name@, self.definitions@, path_view(self.path@), *ty, r),
    {
        let ghost segments = path_names(*ty);
        let used = ty.name.span().start..ty.name.span().end;
        let starts_here = ty.path.len() > 0 && same_str(ty.path[0].0.get(), self.name);
        let module = if starts_here {
            Module { name: self.name, path: self.path.clone(), definitions: self.definitions }
        } else {
            let names = path_strs(ty);
            match self.follow_names(&names) {
                Ok(m) => m,
                Err((k, m)) => {
                    proof {
                        assert(walk(self.definitions@, segments.take(k + 1)) is None) by {
                            assert(segments.take(k + 1).drop_last() =~= segments.take(k as int));
                        }
                        lemma_walk_none(self.definitions@, segments, k as int + 1);
                    }
                    return Err(
                        ResolveRemote::MissingModule(
                            MissingModule { name: names[k].to_owned(), path: join_path(&m.path), used },
                        ),
                    );
                },
            }
        };
        proof {
            if starts_here {
                assert(path_view(module.path@) =~= path_view(self.path@));
            }
        }
        let k = match find_type(module.definitions, ty.name.get()) {
            Some(k) => k,
            None => {
                return Err(
                    ResolveRemote::MissingDefinition(
                        MissingDefinition {
                            name: ty.name.get().to_owned(),
                            path: join_path(&module.path),
                            used,
                        },
                    ),
                );
            },
        };
        proof {
            lemma_first_type_unique(module.definitions@, ty.name.spec_get(), k as int);
        }
        let Type { kind, name } = match declared(&module.definitions[k]) {
            Some(found) => found,
            None => {
                return Ok(());
            },
        };
        let declared = name.span().start..name.span().end;
        match kind {
            TypeKind::Struct { generics } | TypeKind::Enum { generics } => {
                let usage = count_usage(ty);
                if generics != usage {
                    Err(
                        ResolveRemote::GenericsCount(
                            RemoteGenericsCount {
                                amount: usage,
                                used,
                                declaration: [
                                    RemoteGenericsCountDeclaration {
                                        amount: generics,
                                        used: declared,
                                    },
                                ],
                            },
                        ),
                    )
                } else {
                    Ok(())
                }
            },
            TypeKind::Alias => Err(
                ResolveRemote::InvalidKind(
                    RemoteInvalidKind {
                        kind: "type alias",
                        used,
                        declaration: [
                            RemoteInvalidKindDeclaration { kind: "type alias", used: declared },
                        ],
                    },
                ),
            ),
            TypeKind::Const => Err(
                ResolveRemote::InvalidKind(
                    RemoteInvalidKind {
                        kind: "constant",
                        used,
                        declaration: [
                            RemoteInvalidKindDeclaration { kind: "constant", used: declared },
                        ],
                    },
                ),
            ),
        }
    }
}

/// Position `k` holds the first imported module named `name`.
pub open spec fn first_module_import(imports: Seq<ResolvedImport>, name: Seq<char>, k: int) -> bool {
    &&& 0 <= k < imports.len()
    &&& imports[k] matches ResolvedImport::Module(m) && m.name@ == name
    &&& forall|j: int|
        0 <= j < k ==> !(#[trigger] imports[j] matches ResolvedImport::Module(m) && m.name@ == name)
}

/// Position `k` holds the first imported type named `name`.
pub open spec fn first_type_import(imports: Seq<ResolvedImport>, name: Seq<char>, k: int) -> bool {
    &&& 0 <= k < imports.len()
    &&& imports[k] matches ResolvedImport::Type { name: n, .. } && n.spec_get() == name
    &&& forall|j: int|
        0 <= j < k ==> !(#[trigger] imports[j] matches ResolvedImport::Type { name: n, .. }
            && n.spec_get() == name)
}

/// A path written as a prefix of a type name: each segment followed by `::`.
pub open spec fn path_prefix(path: Seq<Seq<char>>) -> Seq<char>
    decreases path.len(),
{
    if path.len() == 0 {
        Seq::empty()
    } else {
        path_prefix(path.drop_last()) + path.last() + seq![':', ':']
    }
}

/// The outcome of resolving a type that is missing locally through the imports: without imports
/// the local error stands. A type with a path is looked up in the first imported module named
/// like the first segment, and resolves where it is found there; a type without a path must be
/// one of the imported types, with as many generics as used.
pub open spec fn remote_type_outcome(
    imports: Seq<ResolvedImport>,
    external: ExternalType,
    local: ResolveLocal,
    r: Result<(), ResolveError>,
) -> bool {
    let segments = path_names(external);
    let used = span_range(external.name.spec_span());
    if imports.len() == 0 {
        r == Err::<(), ResolveError>(ResolveError::Local(local))
    } else if segments.len() > 0 {
        if exists|k: int| first_module_import(imports, segments[0], k) {
            let k = choose|k: int| first_module_import(imports, segments[0], k);
            match imports[k] {
                ResolvedImport::Module(m) => if remote_outcome(
                    m.name@,
                    m.definitions@,
                    path_view(m.path@),
                    external,
                    Ok(()),
                ) {
                    r is Ok
                } else {
                    r matches Err(ResolveError::Remote(b)) && remote_outcome(
                        m.name@,
                        m.definitions@,
                        path_view(m.path@),
                        external,
                        Err(*b),
                    )
                },
                _ => false,
            }
        } else {
            r matches Err(ResolveError::Remote(b)) && match *b {
                ResolveRemote::MissingImport(e) => {
                    &&& e.ty@ == path_prefix(segments) + external.name.spec_get()
                    &&& e.used == used
                },
                _ => false,
            }
        }
    } else {
        if exists|k: int| first_type_import(imports, external.name.spec_get(), k) {
            let k = choose|k: int| first_type_import(imports, external.name.spec_get(), k);
            match imports[k] {
                ResolvedImport::Type { name, generics, .. } => if generics == usage_count(external) {
                    r is Ok
                } else {
                    r matches Err(ResolveError::Remote(b)) && match *b {
                        ResolveRemote::GenericsCount(e) => {
                            &&& e.amount == usage_count(external)
                            &&& e.used == used
                            &&& e.declaration[0].amount == generics
                            &&& e.declaration[0].used == span_range(name.spec_span())
                        },
                        _ => false,
                    }
                },
                _ => false,
            }
        } else {
            r matches Err(ResolveError::Remote(b)) && match *b {
                ResolveRemote::MissingImport(e) => {
                    &&& e.ty@ == external.name.spec_get()
                    &&& e.used == used
                },
                _ => false,
            }
        }
    }
}

/// Write out the path of a type, each segment followed by `::`, then its name.
fn qualified_name(ty: &ExternalType<'_>) -> (r: String)
    ensures
        r@ == path_prefix(path_names(*ty)) + ty.name.spec_get(),
{
    let ghost segments = path_names(*ty);
    let mut out = String::new();
    let mut k: usize = 0;
    while k < ty.path.len()
        invariant
            segments == path_names(*ty),
            k <= ty.path@.len(),
            out@ == path_prefix(segments.take(k as int)),
        decreases ty.path@.len() - k,
    {
        proof {
            assert(segments.take(k + 1).drop_last() =~= segments.take(k as int));
            assert(segments[k as int] == ty.path@[k as int].0.spec_get());
        }
        out.append(ty.path[k].0.get());
        out.append("::");
        proof {
            reveal_strlit("::");
            assert(out@ =~= path_prefix(segments.take(k + 1)));
        }
        k = k + 1;
    }
    proof {
        assert(segments.take(k as int) =~= segments);
    }
    out.append(ty.name.get());
    out
}

/// Resolve a type that is missing locally through the resolved imports of its schema.
pub fn resolve_type_remotely(ty: LocallyMissingType<'_>, imports: &[ResolvedImport<'_>]) -> (r: Result<(), ResolveError>)
    ensures
        remote_type_outcome(imports@, *ty.external, ty.error, r),
{
    let ghost segments = path_names(*ty.external);
    let external = ty.external;
    let used = external.name.span().start..external.name.span().end;
    if imports.len() == 0 {
        return Err(ResolveError::Local(ty.error));
    }
    if external.path.len() > 0 {
        let first = external.path[0].0.get();
        let mut k: usize = 0;
        while k < imports.len()
            invariant
                k <= imports@.len(),
                imports@.len() > 0,
                external == ty.external,
                segments == path_names(*external),
                segments.len() > 0,
                first@ == segments[0],
                forall|j: int|
                    0 <= j < k ==> !(#[trigger] imports@[j] matches ResolvedImport::Module(m)
                        && m.name@ == segments[0]),
            decreases imports@.len() - k,
        {
            match &imports[k] {
                ResolvedImport::Module(m) => {
                    if same_str(m.name, first) {
                        proof {
                            assert(first_module_import(imports@, segments[0], k as int));
                            let c = choose|c: int| first_module_import(imports@, segments[0], c);
                            assert(first_module_import(imports@, segments[0], c));
                            if c < k {
                                assert(!(imports@[c] matches ResolvedImport::Module(m)
                                    && m.name@ == segments[0]));
                            } else if k < c {
                                assert(!(imports@[k as int] matches ResolvedImport::Module(m)
                                    && m.name@ == segments[0]));
                            }
                        }
                        return match m.resolve_remote(external) {
                            Ok(()) => Ok(()),
                            Err(e) => Err(ResolveError::Remote(Box::new(e))),
                        };
                    }
                },
                _ => {},
            }
            k = k + 1;
        }
        return Err(
            ResolveError::Remote(
                Box::new(
                    ResolveRemote::MissingImport(MissingImport { ty: qualified_name(external), used }),
                ),
            ),
        );
    }
    proof {
        assert(segments.len() == 0);
    }
    let mut k: usize = 0;
    while k < imports.len()
        invariant
            k <= imports@.len(),
            imports@.len() > 0,
            external == ty.external,
            segments == path_names(*external),
            segments.len() == 0,
            used == span_range(external.name.spec_span()),
            forall|j: int|
                0 <= j < k ==> !(#[trigger] imports@[j] matches ResolvedImport::Type { name: n, .. }
                    && n.spec_get() == external.name.spec_get()),
        decreases imports@.len() - k,
    {
        match &imports[k] {
            ResolvedImport::Type { name, generics, .. } => {
                if same_str(name.get(), external.name.get()) {
                    proof {
                        assert(first_type_import(imports@, external.name.spec_get(), k as int));
                        let c = choose|c: int|
                            first_type_import(imports@, external.name.spec_get(), c);
                        assert(first_type_import(imports@, external.name.spec_get(), c));
                        if c < k {
                            assert(!(imports@[c] matches ResolvedImport::Type { name: n, .. }
                                && n.spec_get() == external.name.spec_get()));
                        } else if k < c {
                            assert(!(imports@[k as int] matches ResolvedImport::Type { name: n, .. }
                                && n.spec_get() == external.name.spec_get()));
                        }
                    }
                    let usage = count_usage(external);
                    if *generics == usage {
                        return Ok(());
                    }
                    let declared = name.span().start..name.span().end;
                    let e = RemoteGenericsCount {
                        amount: usage,
                        used,
                        declaration: [
                            RemoteGenericsCountDeclaration { amount: *generics, used: declared },
                        ],
                    };
                    return Err(ResolveError::Remote(Box::new(ResolveRemote::GenericsCount(e))));
                }
            },
            _ => {},
        }
        k = k + 1;
    }
    Err(
        ResolveError::Remote(
            Box::new(
                ResolveRemote::MissingImport(
                    MissingImport { ty: external.name.get().to_owned(), used },
                ),
            ),
        ),
    )
}

/// The import statements declared directly in a module, in order.
pub open spec fn module_imports<'a>(definitions: Seq<Definition<'a>>) -> Seq<Import<'a>>
    decreases definitions.len(),
{
    if definitions.len() == 0 {
        Seq::empty()
    } else {
        let prev = module_imports(definitions.drop_last());
        match definitions.last() {
            Definition::Import(i) => prev.push(i),
            _ => prev,
        }
    }
}

/// The schemas as seen by resolution: for each its name, the definitions of its root and the
/// path of its root.
pub open spec fn root_views<'a>(roots: Seq<(&str, Module<'a>)>) -> Seq<
    (Seq<char>, Seq<Definition<'a>>, Seq<Seq<char>>),
> {
    roots.map_values(|r: (&str, Module<'a>)| (r.0@, r.1.definitions@, path_view(r.1.path@)))
}

/// Position `k` holds the first schema named `name`.
pub open spec fn first_root(
    roots: Seq<(Seq<char>, Seq<Definition>, Seq<Seq<char>>)>,
    name: Seq<char>,
    k: int,
) -> bool {
    &&& 0 <= k < roots.len()
    &&& roots[k].0 == name
    &&& forall|j: int| 0 <= j < k ==> (#[trigger] roots[j]).0 != name
}

/// The outcome of resolving an import among the schemas: its first segment names the schema (the
/// first of that name), in whose root the rest is resolved.
pub open spec fn schema_import_outcome<'a>(
    roots: Seq<(Seq<char>, Seq<Definition<'a>>, Seq<Seq<char>>)>,
    import: Import,
    r: Result<ResolvedImport<'a>, ResolveImport>,
) -> bool {
    let root = import.segments@[0];
    if exists|k: int| first_root(roots, root.spec_get(), k) {
        let k = choose|k: int| first_root(roots, root.spec_get(), k);
        import_outcome(roots[k].1, roots[k].2, import, r)
    } else {
        match r {
            Err(ResolveImport::MissingSchema(e)) => {
                &&& e.name@ == root.spec_get()
                &&& e.used == span_range(root.spec_span())
            },
            _ => false,
        }
    }
}

/// The import resolves among the schemas.
pub open spec fn import_resolves(
    roots: Seq<(Seq<char>, Seq<Definition>, Seq<Seq<char>>)>,
    import: Import,
) -> bool {
    exists|x: ResolvedImport| schema_import_outcome(roots, import, Ok(x))
}

/// Every import statement has at least the schema name as path segment.
pub open spec fn imports_named(definitions: Seq<Definition>) -> bool {
    forall|i: int|
        0 <= i < module_imports(definitions).len() ==> (#[trigger] module_imports(
            definitions,
        )[i]).segments@.len() > 0
}

/// The imports that follow the first `k` definitions are the imports of the first `k + 1` ones.
proof fn lemma_module_imports_step(definitions: Seq<Definition>, k: int)
    requires
        0 <= k < definitions.len(),
    ensures
        module_imports(definitions.take(k + 1)) == match definitions[k] {
            Definition::Import(i) => module_imports(definitions.take(k)).push(i),
            _ => module_imports(definitions.take(k)),
        },
        module_imports(definitions.take(k)).len() <= module_imports(definitions).len(),
        module_imports(definitions.take(k)) == module_imports(definitions).take(
            module_imports(definitions.take(k)).len() as int,
        ),
    decreases definitions.len(),
{
    assert(definitions.take(k + 1).drop_last() =~= definitions.take(k));
    if k + 1 == definitions.len() {
        assert(definitions.take(k + 1) =~= definitions);
        assert(module_imports(definitions).take(module_imports(definitions.take(k)).len() as int)
            =~= module_imports(definitions.take(k)));
    } else {
        lemma_module_imports_step(definitions.drop_last(), k);
        assert(definitions.drop_last().take(k + 1) =~= definitions.take(k + 1));
        assert(definitions.drop_last().take(k) =~= definitions.take(k));
        lemma_module_imports_prefix(definitions, k + 1);
        assert(module_imports(definitions).take(module_imports(definitions.take(k)).len() as int)
            =~= module_imports(definitions.drop_last()).take(
            module_imports(definitions.take(k)).len() as int,
        ));
    }
}

/// The imports of a prefix are a prefix of the imports.
proof fn lemma_module_imports_prefix(definitions: Seq<Definition>, k: int)
    requires
        0 <= k <= definitions.len(),
    ensures
        module_imports(definitions.take(k)).len() <= module_imports(definitions).len(),
        module_imports(definitions.take(k)) == module_imports(definitions).take(
            module_imports(definitions.take(k)).len() as int,
        ),
    decreases definitions.len() - k,
{
    if k == definitions.len() {
        assert(definitions.take(k) =~= definitions);
        assert(module_imports(definitions).take(module_imports(definitions).len() as int)
            =~= module_imports(definitions));
    } else {
        lemma_module_imports_prefix(definitions, k + 1);
        assert(definitions.take(k + 1).drop_last() =~= definitions.take(k));
        let a = module_imports(definitions.take(k));
        let b = module_imports(definitions.take(k + 1));
        assert(b.take(a.len() as int) =~= a);
        assert(module_imports(definitions).take(a.len() as int) =~= b.take(a.len() as int));
    }
}

/// The position of the first schema named `name`.
fn find_root(schemas: &Vec<(&str, Module<'_>)>, name: &str) -> (r: Option<usize>)
    ensures
        match r {
            Some(k) => first_root(root_views(schemas@), name@, k as int) && (choose|c: int|
                first_root(root_views(schemas@), name@, c)) == k,
            None => !exists|k: int| first_root(root_views(schemas@), name@, k),
        },
{
    let mut s: usize = 0;
    while s < schemas.len()
        invariant
            s <= schemas@.len(),
            forall|j: int| 0 <= j < s ==> (#[trigger] schemas@[j]).0@ != name@,
        decreases schemas@.len() - s,
    {
        if same_str(schemas[s].0, name) {
            proof {
                let views = root_views(schemas@);
                assert(forall|j: int| 0 <= j < s ==> (#[trigger] views[j]).0 == schemas@[j].0@);
                assert(first_root(views, name@, s as int));
                let c = choose|c: int| first_root(views, name@, c);
                if c < s {
                    assert(views[c].0 != name@);
                } else if s < c {
                    assert(views[s as int].0 != name@);
                }
            }
            return Some(s);
        }
        s = s + 1;
    }
    proof {
        let views = root_views(schemas@);
        assert forall|k: int| !first_root(views, name@, k) by {
            if 0 <= k < schemas@.len() {
                assert(views[k].0 == schemas@[k].0@);
            }
        }
    }
    None
}

/// Resolve the import statements of a module against the root modules of all schemas: all of
/// them in order, or the error of the first one that fails.
pub fn resolve_module_imports<'a>(module: &Module<'a>, schemas: &Vec<(&'a str, Module<'a>)>) -> (r:
    Result<Vec<ResolvedImport<'a>>, ResolveImport>)
    requires
        imports_named(module.definitions@),
    ensures
        ({
            let imports = module_imports(module.definitions@);
            match r {
                Ok(v) => v@.len() == imports.len() && forall|i: int|
                    0 <= i < imports.len() ==> schema_import_outcome(
                        root_views(schemas@),
                        #[trigger] imports[i],
                        Ok(v@[i]),
                    ),
                Err(e) => exists|i: int|
                    #![trigger imports[i]]
                    0 <= i < imports.len() && (forall|j: int|
                        0 <= j < i ==> import_resolves(root_views(schemas@), #[trigger] imports[j]))
                        && schema_import_outcome(root_views(schemas@), imports[i], Err(e)),
            }
        }),
{
    let ghost defs = module.definitions@;
    let ghost imports = module_imports(defs);
    let mut out: Vec<ResolvedImport<'a>> = Vec::new();
    let mut k: usize = 0;
    proof {
        assert(defs.take(0) =~= Seq::<Definition>::empty());
    }
    while k < module.definitions.len()
        invariant
            defs == module.definitions@,
            imports == module_imports(defs),
            imports_named(defs),
            k <= defs.len(),
            out@.len() == module_imports(defs.take(k as int)).len(),
            module_imports(defs.take(k as int)) == imports.take(out@.len() as int),
            out@.len() <= imports.len(),
            forall|i: int|
                0 <= i < out@.len() ==> schema_import_outcome(root_views(schemas@), #[trigger] imports[i], Ok(out@[i])),
        decreases defs.len() - k,
    {
        proof {
            lemma_module_imports_step(defs, k as int);
            lemma_module_imports_prefix(defs, k + 1);
        }
        match &module.definitions[k] {
            Definition::Import(import) => {
                let ghost i = out@.len() as int;
                proof {
                    assert(imports[i] == *import) by {
                        assert(module_imports(defs.take(k + 1)) == imports.take(i + 1));
                        assert(module_imports(defs.take(k + 1))[i] == *import);
                    }
                    assert(import.segments@.len() > 0);
                }
                let root = &import.segments[0];
                let found = find_root(schemas, root.get());
                let result = match found {
                    Some(s) => schemas[s].1.resolve_import(import),
                    None => Err(
                        ResolveImport::MissingSchema(
                            MissingSchema {
                                name: root.get().to_owned(),
                                used: root.span().start..root.span().end,
                            },
                        ),
                    ),
                };
                match result {
                    Ok(resolved) => {
                        out.push(resolved);
                        proof {
                            assert(module_imports(defs.take(k + 1)) =~= imports.take(out@.len() as int));
                        }
                    },
                    Err(e) => {
                        proof {
                            assert(schema_import_outcome(root_views(schemas@), imports[i], Err(e)));
                            assert(module_imports(defs.take(k + 1)).len() == i + 1);
                            assert(0 <= i < imports.len());
                            assert forall|j: int| 0 <= j < i implies import_resolves(
                                root_views(schemas@),
                                #[trigger] imports[j],
                            ) by {
                                assert(schema_import_outcome(root_views(schemas@), imports[j], Ok(out@[j])));
                            }
                        }
                        return Err(e);
                    },
                }
            },
            _ => {},
        }
        k = k + 1;
    }
    proof {
        assert(defs.take(k as int) =~= defs);
        assert(imports.take(out@.len() as int) =~= imports);
    }
    Ok(out)
}

// ------------------------------------------------------------------------------------------------
// Schemas
// ------------------------------------------------------------------------------------------------

/// Reason why type resolution failed.
#[derive(Debug)]
pub struct Error {
    /// Position (in the list given) of the schema whose resolution failed.
    pub schema: usize,
    /// Cause of the failure.
    pub cause: ResolveError,
}

/// The schemas as seen by resolution: for each its name, the definitions of its root and the
/// path of its root (the schema name alone).
pub open spec fn schema_views<'a>(values: Seq<(&str, &Schema<'a>)>) -> Seq<
    (Seq<char>, Seq<Definition<'a>>, Seq<Seq<char>>),
> {
    values.map_values(|v: (&str, &Schema<'a>)| (v.0@, v.1.definitions@, seq![v.0@]))
}

/// The imports resolve, in order, to `resolved`.
pub open spec fn imports_resolve_to<'a>(
    roots: Seq<(Seq<char>, Seq<Definition<'a>>, Seq<Seq<char>>)>,
    imports: Seq<Import>,
    resolved: Seq<ResolvedImport<'a>>,
) -> bool {
    &&& resolved.len() == imports.len()
    &&& forall|j: int|
        0 <= j < imports.len() ==> schema_import_outcome(roots, #[trigger] imports[j], Ok(resolved[j]))
}

/// Schema `i` passes resolution: its imports resolve, and every type that is missing locally is
/// found through them.
pub open spec fn schema_passes<'a>(
    roots: Seq<(Seq<char>, Seq<Definition<'a>>, Seq<Seq<char>>)>,
    i: int,
) -> bool {
    let definitions = roots[i].1;
    let path = roots[i].2;
    exists|resolved: Seq<ResolvedImport<'a>>, missing: Seq<LocallyMissingType>|
        #![trigger imports_resolve_to(roots, module_imports(definitions), resolved), records(missing, unresolved_in_module(definitions, path))]
        imports_resolve_to(roots, module_imports(definitions), resolved) && records(
            missing,
            unresolved_in_module(definitions, path),
        ) && forall|m: int|
            0 <= m < missing.len() ==> remote_type_outcome(
                resolved,
                *(#[trigger] missing[m]).external,
                missing[m].error,
                Ok(()),
            )
}

/// Schema `i` fails resolution with `cause`: the first import that does not resolve, or else the
/// first type that is missing locally and not found through the imports.
pub open spec fn schema_fails<'a>(
    roots: Seq<(Seq<char>, Seq<Definition<'a>>, Seq<Seq<char>>)>,
    i: int,
    cause: ResolveError,
) -> bool {
    let definitions = roots[i].1;
    let path = roots[i].2;
    let imports = module_imports(definitions);
    ||| exists|j: int|
        #![trigger imports[j]]
        0 <= j < imports.len() && (forall|k: int|
            0 <= k < j ==> import_resolves(roots, #[trigger] imports[k])) && match cause {
            ResolveError::Import(e) => schema_import_outcome(roots, imports[j], Err(e)),
            _ => false,
        }
    ||| exists|resolved: Seq<ResolvedImport<'a>>, missing: Seq<LocallyMissingType>, m: int|
        #![trigger imports_resolve_to(roots, imports, resolved), records(missing, unresolved_in_module(definitions, path)), missing[m]]
        imports_resolve_to(roots, imports, resolved) && records(
            missing,
            unresolved_in_module(definitions, path),
        ) && 0 <= m < missing.len() && (forall|l: int|
            0 <= l < m ==> remote_type_outcome(
                resolved,
                *(#[trigger] missing[l]).external,
                missing[l].error,
                Ok(()),
            )) && remote_type_outcome(resolved, *missing[m].external, missing[m].error, Err(cause))
}

/// Ensure all referenced types in the schema definitions exist and are valid.
///
/// Each schema is checked in turn: first the types it uses are resolved in the schema itself and
/// its submodules; then its imports are resolved against the other schemas; lastly the types that
/// were not found locally are looked up through those imports. Resolution stops at the first
/// failure.
pub fn schemas<'a>(values: &[(&'a str, &'a Schema<'a>)]) -> (r: Result<(), Error>)
    requires
        forall|i: int| 0 <= i < values@.len() ==> imports_named((#[trigger] values@[i]).1.definitions@),
    ensures
        r is Ok ==> forall|i: int| 0 <= i < values@.len() ==> schema_passes(schema_views(values@), i),
        r matches Err(e) ==> {
            &&& e.schema < values@.len()
            &&& forall|i: int| 0 <= i < e.schema ==> schema_passes(schema_views(values@), i)
            &&& schema_fails(schema_views(values@), e.schema as int, e.cause)
        },
{
    let ghost views = schema_views(values@);
    let mut roots: Vec<(&'a str, Module<'a>)> = Vec::new();
    let mut i: usize = 0;
    while i < values.len()
        invariant
            i <= values@.len(),
            views == schema_views(values@),
            roots@.len() == i,
            forall|j: int| 0 <= j < i ==> (#[trigger] root_views(roots@)[j]) == views[j],
        decreases values@.len() - i,
    {
        let (name, schema) = values[i];
        let root = Module { name, path: vec![name], definitions: schema.definitions.as_slice() };
        let ghost before = roots@;
        proof {
            assert(path_view(root.path@) =~= seq![name@]);
        }
        roots.push((name, root));
        proof {
            assert(root_views(roots@)[i as int] == views[i as int]);
            assert forall|j: int| 0 <= j < i + 1 implies (#[trigger] root_views(roots@)[j]) == views[j] by {
                if j < i {
                    assert(roots@[j] == before[j]);
                    assert(root_views(before)[j] == views[j]);
                }
            }
        }
        i = i + 1;
    }
    proof {
        assert(root_views(roots@) =~= views);
    }
    let mut i: usize = 0;
    while i < roots.len()
        invariant
            i <= roots@.len() == values@.len(),
            views == schema_views(values@),
            root_views(roots@) == views,
            forall|j: int| 0 <= j < values@.len() ==> imports_named((#[trigger] values@[j]).1.definitions@),
            forall|j: int| 0 <= j < i ==> schema_passes(views, j),
        decreases roots@.len() - i,
    {
        let module = &roots[i].1;
        let ghost definitions = module.definitions@;
        let ghost path = path_view(module.path@);
        proof {
            assert(root_views(roots@)[i as int] == views[i as int]);
            assert(imports_named(values@[i as int].1.definitions@));
        }
        let mut missing: Vec<LocallyMissingType<'a>> = Vec::new();
        resolve_module_types(module, &mut missing);
        proof {
            assert(missing@.skip(0) =~= missing@);
        }
        let imports = match resolve_module_imports(module, &roots) {
            Ok(imports) => imports,
            Err(e) => {
                proof {
                    let imports = module_imports(definitions);
                    assert(views[i as int].1 == definitions);
                    assert(views[i as int].2 == path);
                    let j = choose|j: int|
                        #![trigger imports[j]]
                        0 <= j < imports.len() && (forall|k: int|
                            0 <= k < j ==> import_resolves(views, #[trigger] imports[k]))
                            && schema_import_outcome(views, imports[j], Err(e));
                    assert(0 <= j < imports.len());
                    assert(schema_import_outcome(views, imports[j], Err(e)));
                    assert(schema_fails(views, i as int, ResolveError::Import(e)));
                }
                return Err(Error { schema: i, cause: ResolveError::Import(e) });
            },
        };
        let ghost entries = missing@;
        proof {
            assert(views[i as int].1 == definitions);
            assert(views[i as int].2 == path);
            assert(imports_resolve_to(views, module_imports(definitions), imports@));
        }
        let mut m: usize = 0;
        let count = missing.len();
        while m < count
            invariant
                count == entries.len(),
                m <= count,
                missing@ == entries.skip(m as int),
                i < values@.len() == views.len(),
                views == schema_views(values@),
                forall|j: int| 0 <= j < i ==> schema_passes(views, j),
                views[i as int].1 == definitions,
                views[i as int].2 == path,
                imports_resolve_to(views, module_imports(definitions), imports@),
                records(entries, unresolved_in_module(definitions, path)),
                forall|l: int|
                    0 <= l < m ==> remote_type_outcome(
                        imports@,
                        *(#[trigger] entries[l]).external,
                        entries[l].error,
                        Ok(()),
                    ),
            decreases count - m,
        {
            let ty = missing.remove(0);
            proof {
                assert(entries.skip(m as int)[0] == entries[m as int]);
                assert(missing@ =~= entries.skip(m + 1));
            }
            match resolve_type_remotely(ty, imports.as_slice()) {
                Ok(()) => {},
                Err(cause) => {
                    proof {
                        assert(entries[m as int] == entries[m as int]);
                        assert(imports_resolve_to(views, module_imports(definitions), imports@));
                        assert(records(entries, unresolved_in_module(definitions, path)));
                        assert(schema_fails(views, i as int, cause));
                    }
                    return Err(Error { schema: i, cause });
                },
            }
            m = m + 1;
        }
        proof {
            assert(imports_resolve_to(views, module_imports(definitions), imports@));
            assert(records(entries, unresolved_in_module(definitions, path)));
            assert(schema_passes(views, i as int));
        }
        i = i + 1;
    }
    Ok(())
}

} // verus!
