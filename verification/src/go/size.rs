//! The Go code that computes the encoded size of a value: a size expression for each data type,
//! and the size statements for the fields of a struct or enum variant.

use vstd::prelude::*;

use super::{tabs, write_indent};
use crate::parser::print::{decimal, print_decimal};
use crate::parser::{DataType, Fields, Type};

verus! {

/// Whether the Go generator supports the data type: every `non_zero` in it wraps an integer, a
/// string, a byte array or a collection, every tuple has 2 to 12 elements and every array 1 to 32.
pub open spec fn go_generable(ty: DataType) -> bool
    decreases ty,
{
    match ty {
        DataType::Vec { ty: inner, .. } | DataType::HashSet { ty: inner, .. } | DataType::Option {
            ty: inner,
            ..
        } => go_generable(inner.value),
        DataType::HashMap { key, value, .. } => go_generable(key.value) && go_generable(value.value),
        DataType::NonZero { ty: inner, .. } => match inner.value {
            DataType::U8 | DataType::U16 | DataType::U32 | DataType::U64 | DataType::U128
            | DataType::I8 | DataType::I16 | DataType::I32 | DataType::I64 | DataType::I128
            | DataType::String | DataType::StringRef | DataType::Bytes | DataType::BytesRef => true,
            DataType::Vec { .. } | DataType::HashMap { .. } | DataType::HashSet { .. } => go_generable(
                inner.value,
            ),
            _ => false,
        },
        DataType::Tuple { types, .. } => {
            proof {
                types.lemma_items_decrease();
            }
            &&& 2 <= types.items().len() <= 12
            &&& forall|i: int| 0 <= i < types.items().len() ==> go_generable(#[trigger] types.items()[i].value)
        },
        DataType::Array { ty: inner, size, .. } => 1 <= size <= 32 && go_generable(inner.value),
        _ => true,
    }
}

/// How deep the data type nests: 1 for a type without type parameters.
pub open spec fn type_depth(ty: DataType) -> nat
    decreases ty, 13int,
{
    match ty {
        DataType::Vec { ty: inner, .. } | DataType::HashSet { ty: inner, .. } | DataType::Option {
            ty: inner,
            ..
        } | DataType::NonZero { ty: inner, .. } | DataType::Array { ty: inner, .. } => 1
            + type_depth(inner.value),
        DataType::HashMap { key, value, .. } => 1 + if type_depth(key.value) < type_depth(
            value.value,
        ) {
            type_depth(value.value)
        } else {
            type_depth(key.value)
        },
        DataType::Tuple { .. } => 1 + tuple_depth(ty, 12),
        _ => 1,
    }
}

/// The greatest depth of the first `k` elements of a tuple.
pub open spec fn tuple_depth(tup: DataType, k: int) -> nat
    decreases tup, if k > 0 { k } else { 0 },
{
    match tup {
        DataType::Tuple { types, .. } => {
            proof {
                types.lemma_items_decrease();
            }
            let n = if k < types.items().len() { k } else { types.items().len() as int };
            if n <= 0 {
                0
            } else {
                let d = type_depth(types.items()[n - 1].value);
                let rest = tuple_depth(tup, n - 1);
                if d < rest {
                    rest
                } else {
                    d
                }
            }
        },
        _ => 0,
    }
}

/// The runtime's name part for a scalar data type (`U8`, ..., `F64`).
pub open spec fn go_scalar(ty: DataType) -> Seq<char> {
    match ty {
        DataType::U8 => "U8"@,
        DataType::U16 => "U16"@,
        DataType::U32 => "U32"@,
        DataType::U64 => "U64"@,
        DataType::U128 => "U128"@,
        DataType::I8 => "I8"@,
        DataType::I16 => "I16"@,
        DataType::I32 => "I32"@,
        DataType::I64 => "I64"@,
        DataType::I128 => "I128"@,
        DataType::F32 => "F32"@,
        _ => "F64"@,
    }
}

/// Whether the data type is a Mabo integer.
pub open spec fn go_integer(ty: DataType) -> bool {
    ty is U8 || ty is U16 || ty is U32 || ty is U64 || ty is U128 || ty is I8 || ty is I16
        || ty is I32 || ty is I64 || ty is I128
}

/// A Go function literal of one parameter `v` of type `elem` that returns the size `inner`, as
/// the size functions of collections take it: `func(v elem) int {`, the return at `indent + 1`
/// tabs, and the closing brace at `indent` tabs.
pub open spec fn go_item_func(p: Seq<char>, elem: Seq<char>, inner: Seq<char>, indent: nat) -> Seq<
    char,
> {
    "func("@ + p + " "@ + elem + ") int {\n"@ + tabs(indent + 1) + "return "@ + inner + "\n"@
        + tabs(indent) + "}"@
}

/// The Go expression that the generator writes for the encoded size of the value `name` of the
/// data type, at `indent` tabs, where `tn` gives the Go type name of a data type.
pub open spec fn go_size_text(
    ty: DataType,
    name: Seq<char>,
    indent: nat,
    tn: spec_fn(DataType) -> Seq<char>,
) -> Seq<char>
    decreases ty, 13int,
{
    match ty {
        DataType::Bool => "buf.SizeBool("@ + name + ")\n"@,
        DataType::String | DataType::StringRef | DataType::BoxString => "buf.SizeString("@ + name
            + ")"@,
        DataType::Bytes | DataType::BytesRef | DataType::BoxBytes => "buf.SizeBytes("@ + name
            + ")"@,
        DataType::Vec { ty: inner, .. } => "buf.SizeVec["@ + tn(inner.value) + "]("@ + name
            + ", func(v "@ + tn(inner.value) + ") int {\n"@ + tabs(2) + "return "@ + go_size_text(
            inner.value,
            "v"@,
            2,
            tn,
        ) + "\n})\n"@,
        DataType::HashMap { key, value, .. } => "buf.SizeHashMap["@ + tn(key.value) + ", "@ + tn(
            value.value,
        ) + "](\n"@ + tabs(indent + 1) + name + ",\n"@ + tabs(indent + 1) + go_item_func(
            "k"@,
            tn(key.value),
            go_size_text(key.value, "k"@, indent + 2, tn),
            indent + 1,
        ) + ",\n"@ + tabs(indent + 1) + go_item_func(
            "v"@,
            tn(value.value),
            go_size_text(value.value, "v"@, indent + 2, tn),
            indent + 1,
        ) + ",\n"@ + tabs(indent) + ")"@,
        DataType::HashSet { ty: inner, .. } => "buf.SizeHashSet["@ + tn(inner.value) + "]("@ + name
            + ", "@ + go_item_func(
            "v"@,
            tn(inner.value),
            go_size_text(inner.value, "v"@, indent + 1, tn),
            indent,
        ) + ")"@,
        DataType::Option { ty: inner, .. } => "buf.SizeOption["@ + tn(inner.value) + "]("@ + name
            + ", "@ + go_item_func(
            "v"@,
            tn(inner.value),
            go_size_text(inner.value, "v"@, indent + 1, tn),
            indent,
        ) + ")"@,
        DataType::NonZero { ty: inner, .. } => if go_integer(inner.value) {
            "buf.Size"@ + go_scalar(inner.value) + "("@ + name + ".Get())"@
        } else {
            go_size_text(inner.value, name + ".Get()"@, indent, tn)
        },
        DataType::Tuple { .. } => "func() int {\n"@ + tabs(indent + 1) + "size := 0\n"@
            + go_tuple_lines(ty, name, indent, tn, 12) + tabs(indent + 1) + "return size\n"@ + tabs(
            indent,
        ) + "}(size)"@,
        DataType::Array { ty: inner, size, .. } => "buf.SizeArray"@ + decimal(size as nat) + "["@
            + tn(inner.value) + "]("@ + name + ", "@ + go_item_func(
            "v"@,
            tn(inner.value),
            go_size_text(inner.value, "v"@, indent + 1, tn),
            indent,
        ) + ")"@,
        DataType::External(_) => name + ".Size()"@,
        _ => "buf.Size"@ + go_scalar(ty) + "("@ + name + ")"@,
    }
}

/// The lines `size += ...` for the first `k` elements of a tuple (all of them where `k` is 12 or
/// more), each element `name.F<idx>` at `indent + 1` tabs.
pub open spec fn go_tuple_lines(
    tup: DataType,
    name: Seq<char>,
    indent: nat,
    tn: spec_fn(DataType) -> Seq<char>,
    k: int,
) -> Seq<char>
    decreases tup, if k > 0 { k } else { 0 },
{
    match tup {
        DataType::Tuple { types, .. } => {
            proof {
                types.lemma_items_decrease();
            }
            let n = if k < types.items().len() { k } else { types.items().len() as int };
            if n <= 0 {
                Seq::empty()
            } else {
                let ty = types.items()[n - 1].value;
                go_tuple_lines(tup, name, indent, tn, n - 1) + tabs(indent + 1) + "size += "@
                    + go_size_text(ty, name + ".F"@ + decimal((n - 1) as nat), indent + 1, tn)
                    + "\n"@
            }
        },
        _ => Seq::empty(),
    }
}


/// `tn` gives the Go type name that `go_name` returns for each data type.
pub open spec fn names_types<F: Fn(&DataType) -> String>(
    go_name: F,
    tn: spec_fn(DataType) -> Seq<char>,
) -> bool {
    forall|t: &DataType, s: String| #[trigger] go_name.ensures((t,), s) ==> s@ == tn(*t)
}

/// The Go type names that `go_name` returns depend on the data type alone.
pub open spec fn names_deterministic<F: Fn(&DataType) -> String>(go_name: F) -> bool {
    &&& forall|t: &DataType| go_name.requires((t,))
    &&& forall|t: &DataType, a: String, b: String|
        #[trigger] go_name.ensures((t,), a) && #[trigger] go_name.ensures((t,), b) ==> a@ == b@
}

/// Each element of a tuple nests no deeper than the deepest of them.
proof fn lemma_tuple_depth(tup: DataType, k: int)
    requires
        tup is Tuple,
    ensures
        tup matches DataType::Tuple { types, .. } ==> forall|i: int|
            0 <= i < k && i < types.items().len() ==> type_depth(#[trigger] types.items()[i].value)
                <= tuple_depth(tup, k),
    decreases if k > 0 { k } else { 0 },
{
    if let DataType::Tuple { types, .. } = tup {
        if k > 0 {
            let n = if k < types.items().len() { k } else { types.items().len() as int };
            if n < k {
                lemma_tuple_depth(tup, n);
                assert(tuple_depth(tup, n) == tuple_depth(tup, k));
            } else if n > 0 {
                lemma_tuple_depth(tup, n - 1);
            }
        }
    }
}

/// A Go type name, through the caller's function.
fn go_type_name<F: Fn(&DataType) -> String>(go_name: &F, ty: &DataType) -> (r: String)
    requires
        names_deterministic(*go_name),
    ensures
        forall|tn: spec_fn(DataType) -> Seq<char>| #[trigger] names_types(*go_name, tn) ==> r@ == tn(*ty),
{
    go_name(ty)
}

/// Append the Go size expression of the value `name` of the data type at `indent` tabs, where
/// `go_name` renders the Go type name of a data type.
#[verifier::spinoff_prover]
pub fn write_go_size<F: Fn(&DataType) -> String>(
    w: &mut String,
    ty: &DataType,
    name: &str,
    indent: usize,
    go_name: &F,
)
    requires
        go_generable(*ty),
        indent + 2 * type_depth(*ty) <= usize::MAX,
        names_deterministic(*go_name),
    ensures
        forall|tn: spec_fn(DataType) -> Seq<char>| #[trigger] names_types(*go_name, tn)
            ==> final(w)@ == old(w)@ + go_size_text(*ty, name@, indent as nat, tn),
    decreases ty, 13int,
{
    let ghost start = w@;
    match ty {
        DataType::Bool => {
            w.append("buf.SizeBool(");
            w.append(name);
            w.append(")\n");
            proof {
                reveal_strlit("buf.SizeBool(");
                reveal_strlit(")\n");
                assert(w@ =~= start + go_size_text(*ty, name@, indent as nat, |t: DataType| Seq::<char>::empty()));
            }
        },
        DataType::String | DataType::StringRef | DataType::BoxString => {
            w.append("buf.SizeString(");
            w.append(name);
            w.append(")");
            proof {
                reveal_strlit("buf.SizeString(");
                reveal_strlit(")");
                assert(w@ =~= start + go_size_text(*ty, name@, indent as nat, |t: DataType| Seq::<char>::empty()));
            }
        },
        DataType::Bytes | DataType::BytesRef | DataType::BoxBytes => {
            w.append("buf.SizeBytes(");
            w.append(name);
            w.append(")");
            proof {
                reveal_strlit("buf.SizeBytes(");
                reveal_strlit(")");
                assert(w@ =~= start + go_size_text(*ty, name@, indent as nat, |t: DataType| Seq::<char>::empty()));
            }
        },
        DataType::Vec { .. } => write_go_size_vec(w, ty, name, go_name),
        DataType::HashMap { .. } => write_go_size_map(w, ty, name, indent, go_name),
        DataType::HashSet { .. } | DataType::Option { .. } | DataType::Array { .. } => {
            write_go_size_items(w, ty, name, indent, go_name)
        },
        DataType::NonZero { ty: inner, .. } => {
            match &inner.value {
                DataType::U8 | DataType::U16 | DataType::U32 | DataType::U64 | DataType::U128
                | DataType::I8 | DataType::I16 | DataType::I32 | DataType::I64 | DataType::I128 => {
                    w.append("buf.Size");
                    write_go_scalar(w, &inner.value);
                    w.append("(");
                    w.append(name);
                    w.append(".Get())");
                    proof {
                        reveal_strlit("buf.Size");
                        reveal_strlit("(");
                        reveal_strlit(".Get())");
                        assert(w@ =~= start + go_size_text(*ty, name@, indent as nat, |t: DataType| Seq::<char>::empty()));
                    }
                },
                _ => {
                    let mut n = String::new();
                    n.append(name);
                    n.append(".Get()");
                    proof {
                        reveal_strlit("");
                        reveal_strlit(".Get()");
                        assert(n@ =~= name@ + ".Get()"@);
                    }
                    write_go_size(w, &inner.value, n.as_str(), indent, go_name);
                },
            }
        },
        DataType::Tuple { .. } => {
            w.append("func() int {\n");
            write_indent(w, indent + 1);
            w.append("size := 0\n");
            let ghost before = w@;
            proof {
                lemma_tuple_depth(*ty, 12);
            }
            write_go_tuple_lines(w, ty, name, indent, go_name);
            let ghost after = w@;
            write_indent(w, indent + 1);
            w.append("return size\n");
            write_indent(w, indent);
            w.append("}(size)");
            proof {
                reveal_strlit("func() int {\n");
                reveal_strlit("size := 0\n");
                reveal_strlit("return size\n");
                reveal_strlit("}(size)");
                assert forall|tn: spec_fn(DataType) -> Seq<char>| #[trigger] names_types(*go_name, tn)
                    implies w@ == start + go_size_text(*ty, name@, indent as nat, tn) by {
                    assert(after == before + go_tuple_lines(*ty, name@, indent as nat, tn, 12));
                    assert(w@ =~= start + go_size_text(*ty, name@, indent as nat, tn));
                }
            }
        },
        DataType::External(_) => {
            w.append(name);
            w.append(".Size()");
            proof {
                reveal_strlit(".Size()");
                assert(w@ =~= start + go_size_text(*ty, name@, indent as nat, |t: DataType| Seq::<char>::empty()));
            }
        },
        _ => {
            w.append("buf.Size");
            write_go_scalar(w, ty);
            w.append("(");
            w.append(name);
            w.append(")");
            proof {
                reveal_strlit("buf.Size");
                reveal_strlit("(");
                reveal_strlit(")");
                assert(w@ =~= start + go_size_text(*ty, name@, indent as nat, |t: DataType| Seq::<char>::empty()));
            }
        },
    }
}

/// Append a Go function literal of one parameter `p` of type `elem` that returns the size of
/// `p`, the data type `inner`.
#[verifier::spinoff_prover]
fn write_go_item_func<F: Fn(&DataType) -> String>(
    w: &mut String,
    p: &str,
    elem: &str,
    inner: &DataType,
    indent: usize,
    go_name: &F,
)
    requires
        go_generable(*inner),
        indent + 1 + 2 * type_depth(*inner) <= usize::MAX,
        names_deterministic(*go_name),
    ensures
        forall|tn: spec_fn(DataType) -> Seq<char>| #[trigger] names_types(*go_name, tn)
            ==> final(w)@ == old(w)@ + go_item_func(
                p@,
                elem@,
                go_size_text(*inner, p@, (indent + 1) as nat, tn),
                indent as nat,
            ),
    decreases inner, 14int,
{
    let ghost start = w@;
    w.append("func(");
    w.append(p);
    w.append(" ");
    w.append(elem);
    w.append(") int {\n");
    write_indent(w, indent + 1);
    w.append("return ");
    let ghost before = w@;
    write_go_size(w, inner, p, indent + 1, go_name);
    let ghost after = w@;
    w.append("\n");
    write_indent(w, indent);
    w.append("}");
    proof {
        reveal_strlit("func(");
        reveal_strlit(" ");
        reveal_strlit(") int {\n");
        reveal_strlit("return ");
        reveal_strlit("\n");
        reveal_strlit("}");
        assert forall|tn: spec_fn(DataType) -> Seq<char>| #[trigger] names_types(*go_name, tn)
            implies w@ == start + go_item_func(
                p@,
                elem@,
                go_size_text(*inner, p@, (indent + 1) as nat, tn),
                indent as nat,
            ) by {
            assert(after == before + go_size_text(*inner, p@, (indent + 1) as nat, tn));
            assert(w@ =~= start + go_item_func(
                p@,
                elem@,
                go_size_text(*inner, p@, (indent + 1) as nat, tn),
                indent as nat,
            ));
        }
    }
}

/// Append the Go size expression of a vector value `name`.
#[verifier::spinoff_prover]
fn write_go_size_vec<F: Fn(&DataType) -> String>(w: &mut String, ty: &DataType, name: &str, go_name: &F)
    requires
        ty is Vec,
        go_generable(*ty),
        2 * type_depth(*ty) <= usize::MAX,
        names_deterministic(*go_name),
    ensures
        forall|tn: spec_fn(DataType) -> Seq<char>| #[trigger] names_types(*go_name, tn)
            ==> forall|indent: nat| final(w)@ == old(w)@ + #[trigger] go_size_text(*ty, name@, indent, tn),
    decreases ty, 0int,
{
    let ghost start = w@;
    let inner = match ty {
        DataType::Vec { ty: inner, .. } => inner,
        _ => {
            proof {
                assert(false);
            }
            return;
        },
    };
    let elem = go_type_name(go_name, &inner.value);
    w.append("buf.SizeVec[");
    w.append(elem.as_str());
    w.append("](");
    w.append(name);
    w.append(", func(v ");
    w.append(elem.as_str());
    w.append(") int {\n");
    write_indent(w, 2);
    w.append("return ");
    let ghost before = w@;
    write_go_size(w, &inner.value, "v", 2, go_name);
    let ghost after = w@;
    w.append("\n})\n");
    proof {
        reveal_strlit("buf.SizeVec[");
        reveal_strlit("](");
        reveal_strlit(", func(v ");
        reveal_strlit(") int {\n");
        reveal_strlit("return ");
        reveal_strlit("\n})\n");
        assert forall|tn: spec_fn(DataType) -> Seq<char>, indent: nat| #[trigger] names_types(*go_name, tn)
            implies w@ == start + #[trigger] go_size_text(*ty, name@, indent, tn) by {
            assert(after == before + go_size_text(inner.value, "v"@, 2, tn));
            assert(w@ =~= start + go_size_text(*ty, name@, indent, tn));
        }
    }
}

/// Append the Go size expression of a hash set, option or array value `name` at `indent` tabs.
#[verifier::spinoff_prover]
fn write_go_size_items<F: Fn(&DataType) -> String>(
    w: &mut String,
    ty: &DataType,
    name: &str,
    indent: usize,
    go_name: &F,
)
    requires
        ty is HashSet || ty is Option || ty is Array,
        go_generable(*ty),
        indent + 2 * type_depth(*ty) <= usize::MAX,
        names_deterministic(*go_name),
    ensures
        forall|tn: spec_fn(DataType) -> Seq<char>| #[trigger] names_types(*go_name, tn)
            ==> final(w)@ == old(w)@ + go_size_text(*ty, name@, indent as nat, tn),
    decreases ty, 0int,
{
    let ghost start = w@;
    let inner = match ty {
        DataType::HashSet { ty: inner, .. } => {
            w.append("buf.SizeHashSet[");
            inner
        },
        DataType::Option { ty: inner, .. } => {
            w.append("buf.SizeOption[");
            inner
        },
        DataType::Array { ty: inner, size, .. } => {
            w.append("buf.SizeArray");
            print_decimal(w, *size as u128);
            w.append("[");
            inner
        },
        _ => {
            proof {
                assert(false);
            }
            return;
        },
    };
    let ghost head = w@;
    let elem = go_type_name(go_name, &inner.value);
    w.append(elem.as_str());
    w.append("](");
    w.append(name);
    w.append(", ");
    let ghost before = w@;
    write_go_item_func(w, "v", elem.as_str(), &inner.value, indent, go_name);
    let ghost after = w@;
    w.append(")");
    proof {
        reveal_strlit("buf.SizeHashSet[");
        reveal_strlit("buf.SizeOption[");
        reveal_strlit("buf.SizeArray");
        reveal_strlit("[");
        reveal_strlit("](");
        reveal_strlit(", ");
        reveal_strlit(")");
        assert forall|tn: spec_fn(DataType) -> Seq<char>| #[trigger] names_types(*go_name, tn)
            implies w@ == start + go_size_text(*ty, name@, indent as nat, tn) by {
            assert(elem@ == tn(inner.value));
            assert(after == before + go_item_func(
                "v"@,
                elem@,
                go_size_text(inner.value, "v"@, (indent + 1) as nat, tn),
                indent as nat,
            ));
            assert(w@ =~= start + go_size_text(*ty, name@, indent as nat, tn));
        }
    }
}

/// Append the Go size expression of a hash map value `name` at `indent` tabs.
#[verifier::spinoff_prover]
#[verifier::rlimit(80)]
fn write_go_size_map<F: Fn(&DataType) -> String>(
    w: &mut String,
    ty: &DataType,
    name: &str,
    indent: usize,
    go_name: &F,
)
    requires
        ty is HashMap,
        go_generable(*ty),
        indent + 2 * type_depth(*ty) <= usize::MAX,
        names_deterministic(*go_name),
    ensures
        forall|tn: spec_fn(DataType) -> Seq<char>| #[trigger] names_types(*go_name, tn)
            ==> final(w)@ == old(w)@ + go_size_text(*ty, name@, indent as nat, tn),
    decreases ty, 0int,
{
    let ghost start = w@;
    let (key, value) = match ty {
        DataType::HashMap { key, value, .. } => (key, value),
        _ => {
            proof {
                assert(false);
            }
            return;
        },
    };
    let kn = go_type_name(go_name, &key.value);
    let vn = go_type_name(go_name, &value.value);
    w.append("buf.SizeHashMap[");
    w.append(kn.as_str());
    w.append(", ");
    w.append(vn.as_str());
    w.append("](\n");
    write_indent(w, indent + 1);
    w.append(name);
    w.append(",\n");
    write_indent(w, indent + 1);
    let ghost k0 = w@;
    write_go_item_func(w, "k", kn.as_str(), &key.value, indent + 1, go_name);
    let ghost k1 = w@;
    w.append(",\n");
    write_indent(w, indent + 1);
    let ghost v0 = w@;
    write_go_item_func(w, "v", vn.as_str(), &value.value, indent + 1, go_name);
    let ghost v1 = w@;
    w.append(",\n");
    write_indent(w, indent);
    w.append(")");
    proof {
        reveal_strlit("buf.SizeHashMap[");
        reveal_strlit(", ");
        reveal_strlit("](\n");
        reveal_strlit(",\n");
        reveal_strlit(")");
        assert forall|tn: spec_fn(DataType) -> Seq<char>| #[trigger] names_types(*go_name, tn)
            implies w@ == start + go_size_text(*ty, name@, indent as nat, tn) by {
            assert(kn@ == tn(key.value));
            assert(vn@ == tn(value.value));
            assert(k1 == k0 + go_item_func(
                "k"@,
                kn@,
                go_size_text(key.value, "k"@, (indent + 2) as nat, tn),
                (indent + 1) as nat,
            ));
            assert(v1 == v0 + go_item_func(
                "v"@,
                vn@,
                go_size_text(value.value, "v"@, (indent + 2) as nat, tn),
                (indent + 1) as nat,
            ));
            assert(w@ =~= start + go_size_text(*ty, name@, indent as nat, tn));
        }
    }
}

/// Append the runtime's name part for a scalar data type.
fn write_go_scalar(w: &mut String, ty: &DataType)
    requires
        ty is U8 || ty is U16 || ty is U32 || ty is U64 || ty is U128 || ty is I8 || ty is I16
            || ty is I32 || ty is I64 || ty is I128 || ty is F32 || ty is F64,
    ensures
        final(w)@ == old(w)@ + go_scalar(*ty),
{
    let text = match ty {
        DataType::U8 => "U8",
        DataType::U16 => "U16",
        DataType::U32 => "U32",
        DataType::U64 => "U64",
        DataType::U128 => "U128",
        DataType::I8 => "I8",
        DataType::I16 => "I16",
        DataType::I32 => "I32",
        DataType::I64 => "I64",
        DataType::I128 => "I128",
        DataType::F32 => "F32",
        _ => "F64",
    };
    proof {
        reveal_strlit("U8");
        reveal_strlit("U16");
        reveal_strlit("U32");
        reveal_strlit("U64");
        reveal_strlit("U128");
        reveal_strlit("I8");
        reveal_strlit("I16");
        reveal_strlit("I32");
        reveal_strlit("I64");
        reveal_strlit("I128");
        reveal_strlit("F32");
        reveal_strlit("F64");
    }
    w.append(text);
}

/// Append the `size += ...` lines of a tuple's elements.
fn write_go_tuple_lines<F: Fn(&DataType) -> String>(
    w: &mut String,
    ty: &DataType,
    name: &str,
    indent: usize,
    go_name: &F,
)
    requires
        ty is Tuple,
        go_generable(*ty),
        indent + 2 + 2 * tuple_depth(*ty, 12) <= usize::MAX,
        names_deterministic(*go_name),
        ty matches DataType::Tuple { types, .. } ==> forall|i: int|
            0 <= i < types.items().len() ==> type_depth(#[trigger] types.items()[i].value)
                <= tuple_depth(*ty, 12),
    ensures
        forall|tn: spec_fn(DataType) -> Seq<char>| #[trigger] names_types(*go_name, tn)
            ==> final(w)@ == old(w)@ + go_tuple_lines(*ty, name@, indent as nat, tn, 12),
    decreases ty, 12int,
{
    let ghost start = w@;
    let types = match ty {
        DataType::Tuple { types, .. } => types,
        _ => {
            proof {
                assert(false);
            }
            return;
        },
    };
    let n = types.len();
    proof {
        types.lemma_items_decrease();
        reveal_strlit("size += ");
        reveal_strlit("\n");
        reveal_strlit(".F");
        reveal_strlit("");
    }
    let mut i: usize = 0;
    while i < n
        invariant
            *ty matches DataType::Tuple { types: t, .. } && t == *types,
            n == types.items().len(),
            2 <= n <= 12,
            go_generable(*ty),
            names_deterministic(*go_name),
            indent + 2 + 2 * tuple_depth(*ty, 12) <= usize::MAX,
            forall|j: int| 0 <= j < n ==> type_depth(#[trigger] types.items()[j].value) <= tuple_depth(*ty, 12),
            i <= n,
            forall|j: int| 0 <= j < n ==> decreases_to!(*ty => (#[trigger] types.items()[j]).value),
            forall|tn: spec_fn(DataType) -> Seq<char>| #[trigger] names_types(*go_name, tn)
                ==> w@ == start + go_tuple_lines(*ty, name@, indent as nat, tn, i as int),
        decreases n - i,
    {
        let item = types.get(i);
        let mut iname = String::new();
        iname.append(name);
        iname.append(".F");
        print_decimal(&mut iname, i as u128);
        let ghost mid = w@;
        write_indent(w, indent + 1);
        w.append("size += ");
        let ghost before = w@;
        proof {
            assert(iname@ =~= name@ + ".F"@ + decimal(i as nat));
            assert(go_generable(types.items()[i as int].value));
            assert(decreases_to!(*ty => types.items()[i as int].value));
            assert(type_depth(types.items()[i as int].value) <= tuple_depth(*ty, 12));
        }
        write_go_size(w, &item.value, iname.as_str(), indent + 1, go_name);
        let ghost after = w@;
        w.append("\n");
        proof {
            assert forall|tn: spec_fn(DataType) -> Seq<char>| #[trigger] names_types(*go_name, tn)
                implies w@ == start + go_tuple_lines(*ty, name@, indent as nat, tn, i + 1) by {
                assert(mid == start + go_tuple_lines(*ty, name@, indent as nat, tn, i as int));
                assert(after == before + go_size_text(item.value, iname@, (indent + 1) as nat, tn));
                assert(w@ =~= start + go_tuple_lines(*ty, name@, indent as nat, tn, i + 1));
            }
        }
        i = i + 1;
    }
}


/// The text in UpperCamelCase as the `heck` crate writes it (`AsUpperCamelCase`).
pub uninterp spec fn upper_camel(s: Seq<char>) -> Seq<char>;

/// `heck::AsUpperCamelCase`, written to a string: the words of the text, split where `heck`
/// splits them (at characters that are not alphanumeric and at changes of case), each with its
/// first letter in upper case and the rest in lower case, joined. What that gives for each text
/// is what the name `upper_camel` stands for; it is not written out here.
#[verifier::external_body]
fn upper_camel_case(s: &str) -> (r: String)
    ensures
        r@ == upper_camel(s@),
{
    heck::AsUpperCamelCase(s).to_string()
}

/// The Go size expression of the value `name` of the type at `indent` tabs, where `go_name`
/// renders the Go type name of a data type.
pub fn render_size_type<F: Fn(&DataType) -> String>(
    ty: &Type,
    name: &str,
    indent: usize,
    go_name: &F,
) -> (r: String)
    requires
        go_generable(ty.value),
        indent + 2 * type_depth(ty.value) <= usize::MAX,
        names_deterministic(*go_name),
    ensures
        forall|tn: spec_fn(DataType) -> Seq<char>| #[trigger] names_types(*go_name, tn)
            ==> r@ == go_size_text(ty.value, name@, indent as nat, tn),
{
    let mut w = String::new();
    proof {
        reveal_strlit("");
    }
    write_go_size(&mut w, &ty.value, name, indent, go_name);
    w
}

/// The line `size += ...` that the generator writes for one field with identifier `id`, reached
/// as `member` (`v.Name` for a named field, `v.F<idx>` for an unnamed one).
pub open spec fn go_field_line(
    named: bool,
    ty: DataType,
    id: u32,
    member: Seq<char>,
    tn: spec_fn(DataType) -> Seq<char>,
) -> Seq<char> {
    match ty {
        DataType::Option { ty: inner, .. } => "\tsize += buf.SizeFieldOption["@ + tn(inner.value)
            + "]("@ + decimal(id as nat) + ", &"@ + member + (if named {
            ", func(v "@
        } else {
            ", func (v "@
        }) + tn(inner.value) + (if named {
            ") []byte {\n"@
        } else {
            ") int {\n"@
        }) + tabs(2) + "return "@ + go_size_text(inner.value, "v"@, 2, tn) + (if named {
            "\n})\n"@
        } else {
            "\n\t})\n"@
        }),
        _ => "\tsize += buf.SizeField("@ + decimal(id as nat) + ", func() int {\n"@ + tabs(2)
            + "return "@ + go_size_text(ty, member, 2, tn) + (if named {
            "\n})\n"@
        } else {
            "\n\t})\n"@
        }),
    }
}

/// The fields of a struct or variant as (type, identifier, member) triples: named fields reached
/// as `v.Name` (the name in UpperCamelCase), unnamed ones as `v.F<idx>`.
pub open spec fn go_field_members(fields: Fields) -> Seq<(DataType, u32, Seq<char>)> {
    match fields {
        Fields::Named(_, p) => p.items().map_values(
            |f: crate::parser::NamedField| (f.ty.value, f.id.unwrap().spec_get(), "v."@ + upper_camel(f.name.spec_get())),
        ),
        Fields::Unnamed(_, p) => p.items().map(
            |i: int, f: crate::parser::UnnamedField| (f.ty.value, f.id.unwrap().spec_get(), "v.F"@ + decimal(i as nat)),
        ),
        Fields::Unit => Seq::empty(),
    }
}

/// The lines of the fields, one after the other.
pub open spec fn go_field_lines(
    named: bool,
    fs: Seq<(DataType, u32, Seq<char>)>,
    tn: spec_fn(DataType) -> Seq<char>,
) -> Seq<char>
    decreases fs.len(),
{
    if fs.len() == 0 {
        Seq::empty()
    } else {
        go_field_lines(named, fs.drop_last(), tn) + go_field_line(
            named,
            fs.last().0,
            fs.last().1,
            fs.last().2,
            tn,
        )
    }
}

/// The Go statements that add up the encoded size of a struct's or variant's fields (in `size`,
/// of the receiver `v`): a line per field, then the end marker's size; nothing for a unit one.
pub open spec fn go_fields_text(fields: Fields, tn: spec_fn(DataType) -> Seq<char>) -> Seq<char> {
    match fields {
        Fields::Unit => Seq::empty(),
        _ => go_field_lines(fields is Named, go_field_members(fields), tn)
            + "\tsize += buf.SizeU32(buf.EndMarker)\n"@,
    }
}

/// Whether every field has its identifier and a type the Go generator supports, not nested too
/// deep for the indentation to be counted.
pub open spec fn go_fields_generable(fields: Fields) -> bool {
    match fields {
        Fields::Named(_, p) => forall|i: int|
            0 <= i < p.items().len() ==> (#[trigger] p.items()[i]).id is Some && go_generable(
                p.items()[i].ty.value,
            ) && 2 + 2 * type_depth(p.items()[i].ty.value) <= usize::MAX,
        Fields::Unnamed(_, p) => forall|i: int|
            0 <= i < p.items().len() ==> (#[trigger] p.items()[i]).id is Some && go_generable(
                p.items()[i].ty.value,
            ) && 2 + 2 * type_depth(p.items()[i].ty.value) <= usize::MAX,
        Fields::Unit => true,
    }
}

/// Append the line of one field.
#[verifier::spinoff_prover]
fn write_go_field_line<F: Fn(&DataType) -> String>(
    w: &mut String,
    named: bool,
    ty: &DataType,
    id: u32,
    member: &str,
    go_name: &F,
)
    requires
        go_generable(*ty),
        2 + 2 * type_depth(*ty) <= usize::MAX,
        names_deterministic(*go_name),
    ensures
        forall|tn: spec_fn(DataType) -> Seq<char>| #[trigger] names_types(*go_name, tn)
            ==> final(w)@ == old(w)@ + go_field_line(named, *ty, id, member@, tn),
{
    let ghost start = w@;
    proof {
        reveal_strlit("\tsize += buf.SizeFieldOption[");
        reveal_strlit("](");
        reveal_strlit(", &");
        reveal_strlit(", func(v ");
        reveal_strlit(", func (v ");
        reveal_strlit(") []byte {\n");
        reveal_strlit(") int {\n");
        reveal_strlit("return ");
        reveal_strlit("\n})\n");
        reveal_strlit("\n\t})\n");
        reveal_strlit("\tsize += buf.SizeField(");
        reveal_strlit(", func() int {\n");
    }
    match ty {
        DataType::Option { ty: inner, .. } => {
            let elem = go_type_name(go_name, &inner.value);
            w.append("\tsize += buf.SizeFieldOption[");
            w.append(elem.as_str());
            w.append("](");
            print_decimal(w, id as u128);
            w.append(", &");
            w.append(member);
            if named {
                w.append(", func(v ");
            } else {
                w.append(", func (v ");
            }
            w.append(elem.as_str());
            if named {
                w.append(") []byte {\n");
            } else {
                w.append(") int {\n");
            }
            write_indent(w, 2);
            w.append("return ");
            let ghost before = w@;
            write_go_size(w, &inner.value, "v", 2, go_name);
            let ghost after = w@;
            if named {
                w.append("\n})\n");
            } else {
                w.append("\n\t})\n");
            }
            proof {
                assert forall|tn: spec_fn(DataType) -> Seq<char>| #[trigger] names_types(*go_name, tn)
                    implies w@ == start + go_field_line(named, *ty, id, member@, tn) by {
                    assert(elem@ == tn(inner.value));
                    assert(after == before + go_size_text(inner.value, "v"@, 2, tn));
                    assert(w@ =~= start + go_field_line(named, *ty, id, member@, tn));
                }
            }
        },
        _ => {
            w.append("\tsize += buf.SizeField(");
            print_decimal(w, id as u128);
            w.append(", func() int {\n");
            write_indent(w, 2);
            w.append("return ");
            let ghost before = w@;
            write_go_size(w, ty, member, 2, go_name);
            let ghost after = w@;
            if named {
                w.append("\n})\n");
            } else {
                w.append("\n\t})\n");
            }
            proof {
                assert forall|tn: spec_fn(DataType) -> Seq<char>| #[trigger] names_types(*go_name, tn)
                    implies w@ == start + go_field_line(named, *ty, id, member@, tn) by {
                    assert(after == before + go_size_text(*ty, member@, 2, tn));
                    assert(w@ =~= start + go_field_line(named, *ty, id, member@, tn));
                }
            }
        },
    }
}

/// The Go statements that add up the encoded size of a struct's or variant's fields, where
/// `go_name` renders the Go type name of a data type.
pub fn render_size_fields<F: Fn(&DataType) -> String>(fields: &Fields, go_name: &F) -> (r: String)
    requires
        go_fields_generable(*fields),
        names_deterministic(*go_name),
    ensures
        forall|tn: spec_fn(DataType) -> Seq<char>| #[trigger] names_types(*go_name, tn)
            ==> r@ == go_fields_text(*fields, tn),
{
    let mut w = String::new();
    proof {
        reveal_strlit("");
        reveal_strlit("v.");
        reveal_strlit("v.F");
        reveal_strlit("\tsize += buf.SizeU32(buf.EndMarker)\n");
    }
    let ghost fs = go_field_members(*fields);
    let named = match fields {
        Fields::Named(..) => true,
        _ => false,
    };
    match fields {
        Fields::Unit => {
            return w;
        },
        Fields::Named(_, p) => {
            let n = p.len();
            let mut i: usize = 0;
            while i < n
                invariant
                    n == p.items().len(),
                    i <= n,
                    named,
                    fs == go_field_members(*fields),
                    *fields matches Fields::Named(_, q) && q == *p,
                    go_fields_generable(*fields),
                    names_deterministic(*go_name),
                    forall|tn: spec_fn(DataType) -> Seq<char>| #[trigger] names_types(*go_name, tn)
                        ==> w@ == go_field_lines(true, fs.take(i as int), tn),
                decreases n - i,
            {
                let f = p.get(i);
                let mut member = String::new();
                member.append("v.");
                let camel = upper_camel_case(f.name.get());
                member.append(camel.as_str());
                let id = match &f.id {
                    Some(id) => id.get(),
                    None => {
                        proof {
                            assert(p.items()[i as int].id is Some);
                        }
                        0
                    },
                };
                proof {
                    assert(fs[i as int] == (f.ty.value, id, member@));
                    assert(go_generable(p.items()[i as int].ty.value));
                }
                let ghost before = w@;
                write_go_field_line(&mut w, true, &f.ty.value, id, member.as_str(), go_name);
                proof {
                    assert(fs.take(i + 1).drop_last() =~= fs.take(i as int));
                    assert forall|tn: spec_fn(DataType) -> Seq<char>| #[trigger] names_types(*go_name, tn)
                        implies w@ == go_field_lines(true, fs.take(i + 1), tn) by {
                        assert(before == go_field_lines(true, fs.take(i as int), tn));
                    }
                }
                i = i + 1;
            }
            proof {
                assert(fs.take(n as int) =~= fs);
            }
        },
        Fields::Unnamed(_, p) => {
            let n = p.len();
            let mut i: usize = 0;
            while i < n
                invariant
                    n == p.items().len(),
                    i <= n,
                    !named,
                    fs == go_field_members(*fields),
                    *fields matches Fields::Unnamed(_, q) && q == *p,
                    go_fields_generable(*fields),
                    names_deterministic(*go_name),
                    forall|tn: spec_fn(DataType) -> Seq<char>| #[trigger] names_types(*go_name, tn)
                        ==> w@ == go_field_lines(false, fs.take(i as int), tn),
                decreases n - i,
            {
                let f = p.get(i);
                let mut member = String::new();
                member.append("v.F");
                print_decimal(&mut member, i as u128);
                let id = match &f.id {
                    Some(id) => id.get(),
                    None => {
                        proof {
                            assert(p.items()[i as int].id is Some);
                        }
                        0
                    },
                };
                proof {
                    assert(member@ =~= "v.F"@ + decimal(i as nat));
                    assert(fs[i as int] == (f.ty.value, id, member@));
                    assert(go_generable(p.items()[i as int].ty.value));
                }
                let ghost before = w@;
                write_go_field_line(&mut w, false, &f.ty.value, id, member.as_str(), go_name);
                proof {
                    assert(fs.take(i + 1).drop_last() =~= fs.take(i as int));
                    assert forall|tn: spec_fn(DataType) -> Seq<char>| #[trigger] names_types(*go_name, tn)
                        implies w@ == go_field_lines(false, fs.take(i + 1), tn) by {
                        assert(before == go_field_lines(false, fs.take(i as int), tn));
                    }
                }
                i = i + 1;
            }
            proof {
                assert(fs.take(n as int) =~= fs);
            }
        },
    }
    w.append("\tsize += buf.SizeU32(buf.EndMarker)\n");
    w
}


/// In the generated Go size code every field is read through its own member of the receiver: a
/// named field through `v.` and its name in UpperCamelCase, the unnamed field at position `idx`
/// through `v.F<idx>`, so that different unnamed fields are read from different members. Each
/// field's line carries that field's identifier and type.
pub proof fn law_go_field_members(fields: Fields)
    ensures
        fields matches Fields::Named(_, p) ==> go_field_members(fields).len() == p.items().len()
            && forall|i: int|
            0 <= i < p.items().len() ==> (#[trigger] go_field_members(fields)[i]) == (
                p.items()[i].ty.value,
                p.items()[i].id.unwrap().spec_get(),
                "v."@ + upper_camel(p.items()[i].name.spec_get()),
            ),
        fields matches Fields::Unnamed(_, p) ==> go_field_members(fields).len() == p.items().len()
            && forall|i: int|
            0 <= i < p.items().len() ==> {
                let m = #[trigger] go_field_members(fields)[i];
                &&& m.0 == p.items()[i].ty.value
                &&& m.1 == p.items()[i].id.unwrap().spec_get()
                &&& m.2.take(3) == "v.F"@
                &&& crate::parser::print::all_digits(m.2.skip(3))
                &&& crate::parser::types::digits_value(m.2.skip(3)) == i
            },
        fields matches Fields::Unnamed(_, p) ==> forall|i: int, j: int|
            0 <= i < j < p.items().len() ==> (#[trigger] go_field_members(fields)[i]).2
                != (#[trigger] go_field_members(fields)[j]).2,
{
    reveal_strlit("v.F");
    if let Fields::Unnamed(_, p) = fields {
        assert forall|i: int| 0 <= i < p.items().len() implies {
            let m = #[trigger] go_field_members(fields)[i];
            &&& m.0 == p.items()[i].ty.value
            &&& m.1 == p.items()[i].id.unwrap().spec_get()
            &&& m.2.take(3) == "v.F"@
            &&& crate::parser::print::all_digits(m.2.skip(3))
            &&& crate::parser::types::digits_value(m.2.skip(3)) == i
        } by {
            let t = go_field_members(fields)[i].2;
            crate::parser::types::lemma_decimal(i as nat);
            assert(t.take(3) =~= "v.F"@);
            assert(t.skip(3) =~= decimal(i as nat));
        }
        assert forall|i: int, j: int|
            0 <= i < j < p.items().len() implies (#[trigger] go_field_members(fields)[i]).2
                != (#[trigger] go_field_members(fields)[j]).2 by {
            let a = go_field_members(fields)[i].2;
            let b = go_field_members(fields)[j].2;
            crate::parser::types::lemma_decimal(i as nat);
            crate::parser::types::lemma_decimal(j as nat);
            assert(a.skip(3) =~= decimal(i as nat));
            assert(b.skip(3) =~= decimal(j as nat));
            if a == b {
                assert(a.skip(3) == b.skip(3));
            }
        }
    }
}

} // verus!
