//! Decisions made while generating Rust code for a schema.

use vstd::prelude::*;

use crate::parser::print::{decimal, print_decimal};
use crate::parser::{DataType, Fields, Type};
use crate::buf::decode::{law_skip_encoded, spec_skip};
use crate::buf::encode::wire_bytes;
use crate::varint::{modulus_u64, spec_encode};
use crate::FieldEncoding;

verus! {

/// Whether values of the data type are plain `Copy` values in generated Rust code: booleans,
/// integers and floating point numbers.
pub open spec fn spec_is_copy(ty: &DataType) -> bool {
    ||| ty is Bool
    ||| ty is U8
    ||| ty is U16
    ||| ty is U32
    ||| ty is U64
    ||| ty is U128
    ||| ty is I8
    ||| ty is I16
    ||| ty is I32
    ||| ty is I64
    ||| ty is I128
    ||| ty is F32
    ||| ty is F64
}

/// Whether values of the data type are plain `Copy` values in generated Rust code, so that they
/// are passed by value rather than by reference.
pub fn is_copy(ty: &DataType) -> (r: bool)
    ensures
        r == spec_is_copy(ty),
{
    match ty {
        DataType::Bool | DataType::U8 | DataType::U16 | DataType::U32 | DataType::U64
        | DataType::U128 | DataType::I8 | DataType::I16 | DataType::I32 | DataType::I64
        | DataType::I128 | DataType::F32 | DataType::F64 => true,
        _ => false,
    }
}

/// How a data type is encoded inside a field, where the generator can tell: one byte for booleans
/// and 8-bit integers, four and eight bytes for floats, _Varint_ for the other integers, and a
/// length prefix for everything else. Of `non_zero`, only integers, strings, byte arrays and
/// collections are supported, and of tuples only those with 2 to 12 elements.
pub open spec fn spec_field_encoding(ty: DataType) -> Option<FieldEncoding> {
    match ty {
        DataType::Bool | DataType::U8 | DataType::I8 => Some(FieldEncoding::Fixed1),
        DataType::U16 | DataType::U32 | DataType::U64 | DataType::U128 | DataType::I16
        | DataType::I32 | DataType::I64 | DataType::I128 => Some(FieldEncoding::Varint),
        DataType::F32 => Some(FieldEncoding::Fixed4),
        DataType::F64 => Some(FieldEncoding::Fixed8),
        DataType::NonZero { ty: inner, .. } => match inner.value {
            DataType::U8 | DataType::I8 => Some(FieldEncoding::Fixed1),
            DataType::U16 | DataType::U32 | DataType::U64 | DataType::U128 | DataType::I16
            | DataType::I32 | DataType::I64 | DataType::I128 => Some(FieldEncoding::Varint),
            DataType::String | DataType::StringRef | DataType::Bytes | DataType::BytesRef
            | DataType::Vec { .. } | DataType::HashMap { .. } | DataType::HashSet { .. } => Some(
                FieldEncoding::LengthPrefixed,
            ),
            _ => None,
        },
        DataType::Tuple { types, .. } => if 2 <= types.items().len() <= 12 {
            Some(FieldEncoding::LengthPrefixed)
        } else {
            None
        },
        _ => Some(FieldEncoding::LengthPrefixed),
    }
}

/// The field encoding that generated code declares for a field of the data type (its marker for
/// skipping unknown fields). The generator does not support the types that
/// [`spec_field_encoding`] leaves out.
pub fn field_encoding(ty: &DataType) -> (r: FieldEncoding)
    requires
        spec_field_encoding(*ty) is Some,
    ensures
        spec_field_encoding(*ty) == Some(r),
{
    match ty {
        DataType::Bool | DataType::U8 | DataType::I8 => FieldEncoding::Fixed1,
        DataType::U16 | DataType::U32 | DataType::U64 | DataType::U128 | DataType::I16
        | DataType::I32 | DataType::I64 | DataType::I128 => FieldEncoding::Varint,
        DataType::F32 => FieldEncoding::Fixed4,
        DataType::F64 => FieldEncoding::Fixed8,
        DataType::NonZero { ty: inner, .. } => match &inner.value {
            DataType::U8 | DataType::I8 => FieldEncoding::Fixed1,
            DataType::U16 | DataType::U32 | DataType::U64 | DataType::U128 | DataType::I16
            | DataType::I32 | DataType::I64 | DataType::I128 => FieldEncoding::Varint,
            _ => FieldEncoding::LengthPrefixed,
        },
        _ => FieldEncoding::LengthPrefixed,
    }
}


/// How the generated Rust code represents Mabo `bytes` values.
#[derive(Clone, Copy, Debug, PartialEq, Eq)]
pub enum BytesType {
    /// A plain `Vec<u8>`.
    VecU8,
    /// A `bytes::Bytes` buffer.
    Bytes,
}

/// Options for the Rust code generator.
#[derive(Clone, Copy, Debug, PartialEq, Eq)]
pub struct Opts {
    /// Representation of Mabo `bytes` values.
    pub bytes_type: BytesType,
}

/// Whether the Rust code generator supports the data type: every `non_zero` in it wraps an
/// integer, a string, a byte array or a collection, and every tuple in it has 2 to 12 elements.
pub open spec fn generable(ty: DataType) -> bool
    decreases ty,
{
    match ty {
        DataType::Vec { ty: inner, .. } | DataType::HashSet { ty: inner, .. } | DataType::Option {
            ty: inner,
            ..
        } | DataType::Array { ty: inner, .. } => generable(inner.value),
        DataType::HashMap { key, value, .. } => generable(key.value) && generable(value.value),
        DataType::NonZero { ty: inner, .. } => match inner.value {
            DataType::U8 | DataType::U16 | DataType::U32 | DataType::U64 | DataType::U128
            | DataType::I8 | DataType::I16 | DataType::I32 | DataType::I64 | DataType::I128 => true,
            DataType::String | DataType::StringRef | DataType::Bytes | DataType::BytesRef
            | DataType::Vec { .. } | DataType::HashMap { .. } | DataType::HashSet { .. } => generable(
                inner.value,
            ),
            _ => false,
        },
        DataType::Tuple { types, .. } => {
            proof {
                types.lemma_items_decrease();
            }
            &&& 2 <= types.items().len() <= 12
            &&& forall|i: int| 0 <= i < types.items().len() ==> generable(#[trigger] types.items()[i].value)
        },
        _ => true,
    }
}

/// The name of a scalar data type in the runtime's function names (`bool`, `u8`, ..., `f64`).
pub open spec fn scalar_name(ty: DataType) -> Seq<char> {
    match ty {
        DataType::Bool => "bool"@,
        DataType::U8 => "u8"@,
        DataType::U16 => "u16"@,
        DataType::U32 => "u32"@,
        DataType::U64 => "u64"@,
        DataType::U128 => "u128"@,
        DataType::I8 => "i8"@,
        DataType::I16 => "i16"@,
        DataType::I32 => "i32"@,
        DataType::I64 => "i64"@,
        DataType::I128 => "i128"@,
        DataType::F32 => "f32"@,
        DataType::F64 => "f64"@,
        _ => Seq::empty(),
    }
}

/// Whether the data type is a Mabo integer.
pub open spec fn is_integer(ty: DataType) -> bool {
    ty is U8 || ty is U16 || ty is U32 || ty is U64 || ty is U128 || ty is I8 || ty is I16
        || ty is I32 || ty is I64 || ty is I128
}

/// The name of a scalar data type in the runtime's function names.
fn write_scalar_name(w: &mut String, ty: &DataType)
    requires
        spec_is_copy(ty),
    ensures
        final(w)@ == old(w)@ + scalar_name(*ty),
{
    let text = match ty {
        DataType::Bool => "bool",
        DataType::U8 => "u8",
        DataType::U16 => "u16",
        DataType::U32 => "u32",
        DataType::U64 => "u64",
        DataType::U128 => "u128",
        DataType::I8 => "i8",
        DataType::I16 => "i16",
        DataType::I32 => "i32",
        DataType::I64 => "i64",
        DataType::I128 => "i128",
        DataType::F32 => "f32",
        _ => "f64",
    };
    proof {
        reveal_strlit("bool");
        reveal_strlit("u8");
        reveal_strlit("u16");
        reveal_strlit("u32");
        reveal_strlit("u64");
        reveal_strlit("u128");
        reveal_strlit("i8");
        reveal_strlit("i16");
        reveal_strlit("i32");
        reveal_strlit("i64");
        reveal_strlit("i128");
        reveal_strlit("f32");
        reveal_strlit("f64");
    }
    w.append(text);
}

/// What a closure argument `v` stands for in a size expression: the value itself (`*v`) for
/// `Copy` types, the reference otherwise.
pub open spec fn arg_name(ty: DataType, v: Seq<char>) -> Seq<char> {
    if spec_is_copy(&ty) {
        "*"@ + v
    } else {
        v
    }
}

/// The name of a tuple element in a size expression: `name.idx` for `Copy` types,
/// `&(name.idx)` otherwise.
pub open spec fn tuple_size_name(ty: DataType, name: Seq<char>, idx: nat) -> Seq<char> {
    if spec_is_copy(&ty) {
        name + "."@ + decimal(idx)
    } else {
        "&("@ + name + "."@ + decimal(idx) + ")"@
    }
}

/// The Rust expression that the generator writes for the encoded size of the value `name` of the
/// data type: a call of the runtime's size function for it.
pub open spec fn size_expr_text(bt: BytesType, ty: DataType, name: Seq<char>) -> Seq<char>
    decreases ty, 13int,
{
    match ty {
        DataType::String | DataType::StringRef | DataType::BoxString => "::stef::buf::size_string(&"@
            + name + ")"@,
        DataType::Bytes | DataType::BytesRef | DataType::BoxBytes => match bt {
            BytesType::VecU8 => "::stef::buf::size_bytes_std(&"@ + name + ")"@,
            BytesType::Bytes => "::stef::buf::size_bytes_bytes(&"@ + name + ")"@,
        },
        DataType::Vec { ty: inner, .. } => "::stef::buf::size_vec(&"@ + name + ", |v| { "@
            + size_expr_text(bt, inner.value, arg_name(inner.value, "v"@)) + " })"@,
        DataType::HashMap { key, value, .. } => "::stef::buf::size_hash_map(&"@ + name
            + ", |k| { "@ + size_expr_text(bt, key.value, arg_name(key.value, "k"@))
            + " }, |v| { "@ + size_expr_text(bt, value.value, arg_name(value.value, "v"@))
            + " })"@,
        DataType::HashSet { ty: inner, .. } => "::stef::buf::size_hash_set(&"@ + name
            + ", |v| { "@ + size_expr_text(bt, inner.value, arg_name(inner.value, "v"@)) + " })"@,
        DataType::Option { ty: inner, .. } => "::stef::buf::size_option("@ + name
            + ".as_ref(), |v| { "@ + size_expr_text(bt, inner.value, arg_name(inner.value, "v"@))
            + " })"@,
        DataType::NonZero { ty: inner, .. } => if is_integer(inner.value) {
            "::stef::buf::size_"@ + scalar_name(inner.value) + "("@ + name + ".get())"@
        } else {
            size_expr_text(bt, inner.value, name + ".get()"@)
        },
        DataType::Tuple { .. } => size_tuple_text(bt, ty, name, 12),
        DataType::Array { ty: inner, .. } => "::stef::buf::size_array(&"@ + name + ", |v| { "@
            + size_expr_text(bt, inner.value, arg_name(inner.value, "v"@)) + " })"@,
        DataType::External(_) => "("@ + name + ").size()"@,
        _ => "::stef::buf::size_"@ + scalar_name(ty) + "("@ + name + ")"@,
    }
}

/// The size expressions of the first `k` elements of a tuple (all of them where `k` is 12 or
/// more), joined by ` + `.
pub open spec fn size_tuple_text(bt: BytesType, tup: DataType, name: Seq<char>, k: int) -> Seq<
    char,
>
    decreases tup, if k > 0 { k } else { 0 },
{
    match tup {
        DataType::Tuple { types, .. } => {
            proof {
                types.lemma_items_decrease();
            }
            let n = if k < types.items().len() { k } else { types.items().len() as int };
            if n <= 0 {
                Seq::empty()
            } else {
                let ty = types.items()[n - 1].value;
                let item = size_expr_text(bt, ty, tuple_size_name(ty, name, (n - 1) as nat));
                if n == 1 {
                    item
                } else {
                    size_tuple_text(bt, tup, name, n - 1) + " + "@ + item
                }
            }
        },
        _ => Seq::empty(),
    }
}


/// `"*"` and `v` for `Copy` types, `v` otherwise.
fn write_arg_name(w: &mut String, ty: &DataType, v: &str)
    ensures
        final(w)@ == old(w)@ + arg_name(*ty, v@),
{
    if is_copy(ty) {
        w.append("*");
        proof {
            reveal_strlit("*");
        }
    }
    w.append(v);
}

/// A closure argument's name as a string.
fn arg_string(ty: &DataType, v: &str) -> (r: String)
    ensures
        r@ == arg_name(*ty, v@),
{
    let mut r = String::new();
    proof {
        reveal_strlit("");
    }
    write_arg_name(&mut r, ty, v);
    r
}

/// Append the size expression of the value `name` of the data type.
pub fn write_size_expr(w: &mut String, opts: &Opts, ty: &DataType, name: &str)
    requires
        generable(*ty),
    ensures
        final(w)@ == old(w)@ + size_expr_text(opts.bytes_type, *ty, name@),
    decreases ty,
{
    let ghost start = w@;
    let bt = opts.bytes_type;
    proof {
        reveal_strlit("::stef::buf::size_string(&");
        reveal_strlit("::stef::buf::size_bytes_std(&");
        reveal_strlit("::stef::buf::size_bytes_bytes(&");
        reveal_strlit("::stef::buf::size_vec(&");
        reveal_strlit("::stef::buf::size_hash_map(&");
        reveal_strlit("::stef::buf::size_hash_set(&");
        reveal_strlit("::stef::buf::size_option(");
        reveal_strlit("::stef::buf::size_array(&");
        reveal_strlit("::stef::buf::size_");
        reveal_strlit(")");
        reveal_strlit(".get()");
        reveal_strlit(".get())");
        reveal_strlit("(");
        reveal_strlit(").size()");
        reveal_strlit(", |v| { ");
        reveal_strlit(", |k| { ");
        reveal_strlit(" }, |v| { ");
        reveal_strlit(".as_ref(), |v| { ");
        reveal_strlit(" })");
        reveal_strlit("v");
        reveal_strlit("k");
    }
    match ty {
        DataType::String | DataType::StringRef | DataType::BoxString => {
            w.append("::stef::buf::size_string(&");
            w.append(name);
            w.append(")");
        },
        DataType::Bytes | DataType::BytesRef | DataType::BoxBytes => {
            match bt {
                BytesType::VecU8 => w.append("::stef::buf::size_bytes_std(&"),
                BytesType::Bytes => w.append("::stef::buf::size_bytes_bytes(&"),
            }
            w.append(name);
            w.append(")");
        },
        DataType::Vec { ty: inner, .. } => {
            w.append("::stef::buf::size_vec(&");
            w.append(name);
            w.append(", |v| { ");
            let v = arg_string(&inner.value, "v");
            write_size_expr(w, opts, &inner.value, v.as_str());
            w.append(" })");
        },
        DataType::HashMap { key, value, .. } => {
            w.append("::stef::buf::size_hash_map(&");
            w.append(name);
            w.append(", |k| { ");
            let k = arg_string(&key.value, "k");
            write_size_expr(w, opts, &key.value, k.as_str());
            w.append(" }, |v| { ");
            let v = arg_string(&value.value, "v");
            write_size_expr(w, opts, &value.value, v.as_str());
            w.append(" })");
        },
        DataType::HashSet { ty: inner, .. } => {
            w.append("::stef::buf::size_hash_set(&");
            w.append(name);
            w.append(", |v| { ");
            let v = arg_string(&inner.value, "v");
            write_size_expr(w, opts, &inner.value, v.as_str());
            w.append(" })");
        },
        DataType::Option { ty: inner, .. } => {
            w.append("::stef::buf::size_option(");
            w.append(name);
            w.append(".as_ref(), |v| { ");
            let v = arg_string(&inner.value, "v");
            write_size_expr(w, opts, &inner.value, v.as_str());
            w.append(" })");
        },
        DataType::NonZero { ty: inner, .. } => {
            if is_copy(&inner.value) {
                w.append("::stef::buf::size_");
                write_scalar_name(w, &inner.value);
                w.append("(");
                w.append(name);
                w.append(".get())");
            } else {
                let mut n = String::new();
                n.append(name);
                n.append(".get()");
                proof {
                    reveal_strlit("");
                    assert(n@ =~= name@ + ".get()"@);
                }
                write_size_expr(w, opts, &inner.value, n.as_str());
            }
        },
        DataType::Tuple { types, .. } => {
            write_size_tuple(w, opts, ty, name);
        },
        DataType::Array { ty: inner, .. } => {
            w.append("::stef::buf::size_array(&");
            w.append(name);
            w.append(", |v| { ");
            let v = arg_string(&inner.value, "v");
            write_size_expr(w, opts, &inner.value, v.as_str());
            w.append(" })");
        },
        DataType::External(_) => {
            w.append("(");
            w.append(name);
            w.append(").size()");
        },
        _ => {
            w.append("::stef::buf::size_");
            write_scalar_name(w, ty);
            w.append("(");
            w.append(name);
            w.append(")");
        },
    }
    proof {
        assert(w@ =~= start + size_expr_text(bt, *ty, name@));
    }
}

/// Append the size expressions of a tuple's elements, joined by ` + `.
fn write_size_tuple(w: &mut String, opts: &Opts, ty: &DataType, name: &str)
    requires
        ty is Tuple,
        generable(*ty),
    ensures
        final(w)@ == old(w)@ + size_tuple_text(opts.bytes_type, *ty, name@, 12),
    decreases ty, 12int,
{
    let ghost start = w@;
    let types = match ty {
        DataType::Tuple { types, .. } => types,
        _ => {
            proof {
                assert(false);
            }
            return;
        },
    };
    let n = types.len();
    proof {
        types.lemma_items_decrease();
        reveal_strlit(" + ");
        reveal_strlit(".");
        reveal_strlit("&(");
        reveal_strlit(")");
        reveal_strlit("");
    }
    let mut i: usize = 0;
    while i < n
        invariant
            *ty matches DataType::Tuple { types: t, .. } && t == *types,
            n == types.items().len(),
            2 <= n <= 12,
            generable(*ty),
            i <= n,
            forall|j: int| 0 <= j < n ==> decreases_to!(*ty => (#[trigger] types.items()[j]).value),
            w@ == start + size_tuple_text(opts.bytes_type, *ty, name@, i as int),
        decreases n - i,
    {
        if i > 0 {
            w.append(" + ");
        }
        let item = types.get(i);
        let mut iname = String::new();
        if is_copy(&item.value) {
            iname.append(name);
            iname.append(".");
            print_decimal(&mut iname, i as u128);
        } else {
            iname.append("&(");
            iname.append(name);
            iname.append(".");
            print_decimal(&mut iname, i as u128);
            iname.append(")");
        }
        proof {
            assert(iname@ =~= tuple_size_name(item.value, name@, i as nat));
            assert(generable(types.items()[i as int].value));
            assert(decreases_to!(*ty => types.items()[i as int].value));
        }
        write_size_expr(w, opts, &item.value, iname.as_str());
        proof {
            assert(w@ =~= start + size_tuple_text(opts.bytes_type, *ty, name@, i + 1));
        }
        i = i + 1;
    }
    proof {
        assert(size_tuple_text(opts.bytes_type, *ty, name@, n as int) == size_tuple_text(opts.bytes_type, *ty, name@, 12));
    }
}


/// The Rust statement text that the generator writes to encode the value `name` of the data type
/// into the writer `w`: a call of the runtime's encode function for it. A tuple at the root of a
/// field goes through `encode_tuple` with its size; elsewhere its elements are encoded in turn.
pub open spec fn encode_expr_text(bt: BytesType, ty: DataType, name: Seq<char>, root: bool) -> Seq<
    char,
>
    decreases ty, 13int,
{
    match ty {
        DataType::String | DataType::StringRef | DataType::BoxString => "::stef::buf::encode_string(w, "@
            + name + ")"@,
        DataType::Bytes | DataType::BytesRef | DataType::BoxBytes => match bt {
            BytesType::VecU8 => "::stef::buf::encode_bytes_std(w, "@ + name + ")"@,
            BytesType::Bytes => "::stef::buf::encode_bytes_bytes(w, "@ + name + ")"@,
        },
        DataType::Vec { ty: inner, .. } => "::stef::buf::encode_vec(w, "@ + name + ", |v| { "@
            + size_expr_text(bt, inner.value, "v"@) + " }, |w, v| { "@ + encode_expr_text(
            bt,
            inner.value,
            "v"@,
            false,
        ) + "; })"@,
        DataType::HashMap { key, value, .. } => "::stef::buf::encode_hash_map(w, "@ + name
            + ", |k| { "@ + size_expr_text(bt, key.value, "k"@) + " }, |v| { "@ + size_expr_text(
            bt,
            value.value,
            "v"@,
        ) + " }, |w, k| { "@ + encode_expr_text(bt, key.value, "k"@, false) + "; }, |w, v| { "@
            + encode_expr_text(bt, value.value, "v"@, false) + "; })"@,
        DataType::HashSet { ty: inner, .. } => "::stef::buf::encode_hash_set(w, "@ + name
            + ", |v| { "@ + size_expr_text(bt, inner.value, "v"@) + " }, |w, v| { "@
            + encode_expr_text(bt, inner.value, "v"@, false) + "; })"@,
        DataType::Option { ty: inner, .. } => "::stef::buf::encode_option(w, "@ + name
            + ", |w, v| { "@ + encode_expr_text(bt, inner.value, "v"@, false) + "; })"@,
        DataType::NonZero { ty: inner, .. } => if is_integer(inner.value) {
            "::stef::buf::encode_"@ + scalar_name(inner.value) + "(w, "@ + name + ".get())"@
        } else {
            encode_expr_text(bt, inner.value, name + ".get()"@, false)
        },
        DataType::Tuple { .. } => if root {
            "::stef::buf::encode_tuple(w, || { "@ + tuple_sizes_text(bt, ty, name, 12) + " }, |w| { "@
                + tuple_encodes_text(bt, ty, name, 12) + " })"@
        } else {
            tuple_encodes_text(bt, ty, name, 12)
        },
        DataType::Array { ty: inner, .. } => "::stef::buf::encode_array(w, "@ + name + ", |v| { "@
            + size_expr_text(bt, inner.value, "v"@) + " }, |w, v| { "@ + encode_expr_text(
            bt,
            inner.value,
            "v"@,
            false,
        ) + "; })"@,
        DataType::External(_) => name + ".encode(w)"@,
        _ => "::stef::buf::encode_"@ + scalar_name(ty) + "(w, *"@ + name + ")"@,
    }
}

/// The name of a tuple element inside generated encode code: `&name.idx`.
pub open spec fn tuple_ref_name(name: Seq<char>, idx: nat) -> Seq<char> {
    "&"@ + name + "."@ + decimal(idx)
}

/// The encode statements of the first `k` elements of a tuple (all of them where `k` is 12 or
/// more), each followed by `;`, joined by spaces.
pub open spec fn tuple_encodes_text(bt: BytesType, tup: DataType, name: Seq<char>, k: int) -> Seq<
    char,
>
    decreases tup, if k > 0 { k } else { 0 },
{
    match tup {
        DataType::Tuple { types, .. } => {
            proof {
                types.lemma_items_decrease();
            }
            let n = if k < types.items().len() { k } else { types.items().len() as int };
            if n <= 0 {
                Seq::empty()
            } else {
                let ty = types.items()[n - 1].value;
                let item = encode_expr_text(bt, ty, tuple_ref_name(name, (n - 1) as nat), false)
                    + ";"@;
                if n == 1 {
                    item
                } else {
                    tuple_encodes_text(bt, tup, name, n - 1) + " "@ + item
                }
            }
        },
        _ => Seq::empty(),
    }
}

/// The size expressions of the first `k` elements of a tuple inside generated encode code (all
/// of them where `k` is 12 or more), each on `&name.idx`, joined by ` + `.
pub open spec fn tuple_sizes_text(bt: BytesType, tup: DataType, name: Seq<char>, k: int) -> Seq<
    char,
>
    decreases k,
{
    match tup {
        DataType::Tuple { types, .. } => {
            let n = if k < types.items().len() { k } else { types.items().len() as int };
            if n <= 0 {
                Seq::empty()
            } else {
                let ty = types.items()[n - 1].value;
                let item = size_expr_text(bt, ty, tuple_ref_name(name, (n - 1) as nat));
                if n == 1 {
                    item
                } else {
                    tuple_sizes_text(bt, tup, name, n - 1) + " + "@ + item
                }
            }
        },
        _ => Seq::empty(),
    }
}


/// `name.get()` as a string.
fn get_name(name: &str) -> (r: String)
    ensures
        r@ == name@ + ".get()"@,
{
    let mut n = String::new();
    n.append(name);
    n.append(".get()");
    proof {
        reveal_strlit("");
        reveal_strlit(".get()");
        assert(n@ =~= name@ + ".get()"@);
    }
    n
}

/// Append the encode statement for the value `name` of the data type.
#[verifier::spinoff_prover]
#[verifier::rlimit(80)]
pub fn write_encode_expr(w: &mut String, opts: &Opts, ty: &DataType, name: &str, root: bool)
    requires
        generable(*ty),
    ensures
        final(w)@ == old(w)@ + encode_expr_text(opts.bytes_type, *ty, name@, root),
    decreases ty,
{
    let ghost start = w@;
    let bt = opts.bytes_type;
    match ty {
        DataType::String | DataType::StringRef | DataType::BoxString => {
            w.append("::stef::buf::encode_string(w, ");
            w.append(name);
            w.append(")");
            proof {
                reveal_strlit("::stef::buf::encode_string(w, ");
                reveal_strlit(")");
                assert(w@ =~= start + encode_expr_text(bt, *ty, name@, root));
            }
        },
        DataType::Bytes | DataType::BytesRef | DataType::BoxBytes => {
            match bt {
                BytesType::VecU8 => w.append("::stef::buf::encode_bytes_std(w, "),
                BytesType::Bytes => w.append("::stef::buf::encode_bytes_bytes(w, "),
            }
            w.append(name);
            w.append(")");
            proof {
                reveal_strlit("::stef::buf::encode_bytes_std(w, ");
                reveal_strlit("::stef::buf::encode_bytes_bytes(w, ");
                reveal_strlit(")");
                assert(w@ =~= start + encode_expr_text(bt, *ty, name@, root));
            }
        },
        DataType::Vec { ty: inner, .. } => {
            w.append("::stef::buf::encode_vec(w, ");
            w.append(name);
            w.append(", |v| { ");
            write_size_expr(w, opts, &inner.value, "v");
            w.append(" }, |w, v| { ");
            write_encode_expr(w, opts, &inner.value, "v", false);
            w.append("; })");
            proof {
                reveal_strlit("::stef::buf::encode_vec(w, ");
                reveal_strlit(", |v| { ");
                reveal_strlit("v");
                reveal_strlit(" }, |w, v| { ");
                reveal_strlit("; })");
                assert(w@ =~= start + encode_expr_text(bt, *ty, name@, root));
            }
        },
        DataType::HashMap { key, value, .. } => {
            w.append("::stef::buf::encode_hash_map(w, ");
            w.append(name);
            w.append(", |k| { ");
            write_size_expr(w, opts, &key.value, "k");
            w.append(" }, |v| { ");
            write_size_expr(w, opts, &value.value, "v");
            w.append(" }, |w, k| { ");
            write_encode_expr(w, opts, &key.value, "k", false);
            w.append("; }, |w, v| { ");
            write_encode_expr(w, opts, &value.value, "v", false);
            w.append("; })");
            proof {
                reveal_strlit("::stef::buf::encode_hash_map(w, ");
                reveal_strlit(", |k| { ");
                reveal_strlit("k");
                reveal_strlit(" }, |v| { ");
                reveal_strlit("v");
                reveal_strlit(" }, |w, k| { ");
                reveal_strlit("; }, |w, v| { ");
                reveal_strlit("; })");
                assert(w@ =~= start + encode_expr_text(bt, *ty, name@, root));
            }
        },
        DataType::HashSet { ty: inner, .. } => {
            w.append("::stef::buf::encode_hash_set(w, ");
            w.append(name);
            w.append(", |v| { ");
            write_size_expr(w, opts, &inner.value, "v");
            w.append(" }, |w, v| { ");
            write_encode_expr(w, opts, &inner.value, "v", false);
            w.append("; })");
            proof {
                reveal_strlit("::stef::buf::encode_hash_set(w, ");
                reveal_strlit(", |v| { ");
                reveal_strlit("v");
                reveal_strlit(" }, |w, v| { ");
                reveal_strlit("; })");
                assert(w@ =~= start + encode_expr_text(bt, *ty, name@, root));
            }
        },
        DataType::Option { ty: inner, .. } => {
            w.append("::stef::buf::encode_option(w, ");
            w.append(name);
            w.append(", |w, v| { ");
            write_encode_expr(w, opts, &inner.value, "v", false);
            w.append("; })");
            proof {
                reveal_strlit("::stef::buf::encode_option(w, ");
                reveal_strlit(", |w, v| { ");
                reveal_strlit("v");
                reveal_strlit("; })");
                assert(w@ =~= start + encode_expr_text(bt, *ty, name@, root));
            }
        },
        DataType::NonZero { ty: inner, .. } => {
            if is_copy(&inner.value) {
                w.append("::stef::buf::encode_");
                write_scalar_name(w, &inner.value);
                w.append("(w, ");
                w.append(name);
                w.append(".get())");
            } else {
                let n = get_name(name);
                write_encode_expr(w, opts, &inner.value, n.as_str(), false);
            }
            proof {
                reveal_strlit("::stef::buf::encode_");
                reveal_strlit("(w, ");
                reveal_strlit(".get())");
                assert(w@ =~= start + encode_expr_text(bt, *ty, name@, root));
            }
        },
        DataType::Tuple { .. } => {
            if root {
                w.append("::stef::buf::encode_tuple(w, || { ");
                write_tuple_sizes(w, opts, ty, name);
                w.append(" }, |w| { ");
                write_tuple_encodes(w, opts, ty, name);
                w.append(" })");
            } else {
                write_tuple_encodes(w, opts, ty, name);
            }
            proof {
                reveal_strlit("::stef::buf::encode_tuple(w, || { ");
                reveal_strlit(" }, |w| { ");
                reveal_strlit(" })");
                assert(w@ =~= start + encode_expr_text(bt, *ty, name@, root));
            }
        },
        DataType::Array { ty: inner, .. } => {
            w.append("::stef::buf::encode_array(w, ");
            w.append(name);
            w.append(", |v| { ");
            write_size_expr(w, opts, &inner.value, "v");
            w.append(" }, |w, v| { ");
            write_encode_expr(w, opts, &inner.value, "v", false);
            w.append("; })");
            proof {
                reveal_strlit("::stef::buf::encode_array(w, ");
                reveal_strlit(", |v| { ");
                reveal_strlit("v");
                reveal_strlit(" }, |w, v| { ");
                reveal_strlit("; })");
                assert(w@ =~= start + encode_expr_text(bt, *ty, name@, root));
            }
        },
        DataType::External(_) => {
            w.append(name);
            w.append(".encode(w)");
            proof {
                reveal_strlit(".encode(w)");
                assert(w@ =~= start + encode_expr_text(bt, *ty, name@, root));
            }
        },
        _ => {
            w.append("::stef::buf::encode_");
            write_scalar_name(w, ty);
            w.append("(w, *");
            w.append(name);
            w.append(")");
            proof {
                reveal_strlit("::stef::buf::encode_");
                reveal_strlit("(w, *");
                reveal_strlit(")");
                assert(w@ =~= start + encode_expr_text(bt, *ty, name@, root));
            }
        },
    }
}

/// `&name.idx` as a string.
fn tuple_ref_string(name: &str, idx: usize) -> (r: String)
    ensures
        r@ == tuple_ref_name(name@, idx as nat),
{
    let mut r = String::new();
    r.append("&");
    r.append(name);
    r.append(".");
    print_decimal(&mut r, idx as u128);
    proof {
        reveal_strlit("");
        reveal_strlit("&");
        reveal_strlit(".");
        assert(r@ =~= tuple_ref_name(name@, idx as nat));
    }
    r
}

/// Append the encode statements of a tuple's elements.
fn write_tuple_encodes(w: &mut String, opts: &Opts, ty: &DataType, name: &str)
    requires
        ty is Tuple,
        generable(*ty),
    ensures
        final(w)@ == old(w)@ + tuple_encodes_text(opts.bytes_type, *ty, name@, 12),
    decreases ty, 12int,
{
    let ghost start = w@;
    let types = match ty {
        DataType::Tuple { types, .. } => types,
        _ => {
            proof {
                assert(false);
            }
            return;
        },
    };
    let n = types.len();
    proof {
        types.lemma_items_decrease();
        reveal_strlit(" ");
        reveal_strlit(";");
    }
    let mut i: usize = 0;
    while i < n
        invariant
            *ty matches DataType::Tuple { types: t, .. } && t == *types,
            n == types.items().len(),
            2 <= n <= 12,
            generable(*ty),
            i <= n,
            forall|j: int| 0 <= j < n ==> decreases_to!(*ty => (#[trigger] types.items()[j]).value),
            w@ == start + tuple_encodes_text(opts.bytes_type, *ty, name@, i as int),
        decreases n - i,
    {
        if i > 0 {
            w.append(" ");
        }
        let item = types.get(i);
        let iname = tuple_ref_string(name, i);
        proof {
            assert(generable(types.items()[i as int].value));
            assert(decreases_to!(*ty => types.items()[i as int].value));
        }
        write_encode_expr(w, opts, &item.value, iname.as_str(), false);
        w.append(";");
        proof {
            assert(w@ =~= start + tuple_encodes_text(opts.bytes_type, *ty, name@, i + 1));
        }
        i = i + 1;
    }
}

/// Append the size expressions of a tuple's elements inside encode code, joined by ` + `.
fn write_tuple_sizes(w: &mut String, opts: &Opts, ty: &DataType, name: &str)
    requires
        ty is Tuple,
        generable(*ty),
    ensures
        final(w)@ == old(w)@ + tuple_sizes_text(opts.bytes_type, *ty, name@, 12),
{
    let ghost start = w@;
    let types = match ty {
        DataType::Tuple { types, .. } => types,
        _ => {
            proof {
                assert(false);
            }
            return;
        },
    };
    let n = types.len();
    proof {
        reveal_strlit(" + ");
    }
    let mut i: usize = 0;
    while i < n
        invariant
            *ty matches DataType::Tuple { types: t, .. } && t == *types,
            n == types.items().len(),
            2 <= n <= 12,
            generable(*ty),
            i <= n,
            w@ == start + tuple_sizes_text(opts.bytes_type, *ty, name@, i as int),
        decreases n - i,
    {
        if i > 0 {
            w.append(" + ");
        }
        let item = types.get(i);
        let iname = tuple_ref_string(name, i);
        proof {
            assert(generable(types.items()[i as int].value));
        }
        write_size_expr(w, opts, &item.value, iname.as_str());
        proof {
            assert(w@ =~= start + tuple_sizes_text(opts.bytes_type, *ty, name@, i + 1));
        }
        i = i + 1;
    }
}

/// The size expression that the Rust code generator writes for the value `name` of the type.
pub fn size_code(opts: &Opts, ty: &Type, name: &str) -> (r: String)
    requires
        generable(ty.value),
    ensures
        r@ == size_expr_text(opts.bytes_type, ty.value, name@),
{
    let mut w = String::new();
    proof {
        reveal_strlit("");
    }
    write_size_expr(&mut w, opts, &ty.value, name);
    w
}

/// What the Rust code generator writes for encoding the value `name` of the type: the field
/// encoding that marks it for skipping, and the encode statement.
pub fn encode_code(opts: &Opts, ty: &Type, name: &str, root: bool) -> (r: (FieldEncoding, String))
    requires
        generable(ty.value),
    ensures
        spec_field_encoding(ty.value) == Some(r.0),
        r.1@ == encode_expr_text(opts.bytes_type, ty.value, name@, root),
{
    let mut w = String::new();
    proof {
        reveal_strlit("");
    }
    write_encode_expr(&mut w, opts, &ty.value, name, root);
    (field_encoding(&ty.value), w)
}


/// The closing term of a generated struct size: the size of the end marker.
pub open spec fn end_marker_size_text() -> Seq<char> {
    "::stef::buf::size_u32(::stef::buf::END_MARKER)"@
}

/// The size term that the generator writes for one field with identifier `id`, read from
/// `target`: an optional field goes through `size_field_option` (nothing for `None`), any other
/// through `size_field`.
pub open spec fn field_size_call(bt: BytesType, ty: DataType, id: u32, target: Seq<char>) -> Seq<
    char,
> {
    match ty {
        DataType::Option { ty: inner, .. } => "::stef::buf::size_field_option("@ + decimal(
            id as nat,
        ) + ", "@ + target + ".as_ref(), |v| { "@ + size_expr_text(
            bt,
            inner.value,
            arg_name(inner.value, "v"@),
        ) + " })"@,
        _ => "::stef::buf::size_field("@ + decimal(id as nat) + ", || { "@ + size_expr_text(
            bt,
            ty,
            target,
        ) + " })"@,
    }
}

/// The size terms of the fields (type, identifier, place), each followed by ` + `.
pub open spec fn size_calls_text(bt: BytesType, fs: Seq<(DataType, u32, Seq<char>)>) -> Seq<char>
    decreases fs.len(),
{
    if fs.len() == 0 {
        Seq::empty()
    } else {
        size_calls_text(bt, fs.drop_last()) + field_size_call(
            bt,
            fs.last().0,
            fs.last().1,
            fs.last().2,
        ) + " + "@
    }
}

/// The fields of a struct as (type, identifier, place) triples: named fields at `self.name`,
/// unnamed ones at `self.idx`.
pub open spec fn size_fields(fields: Fields) -> Seq<(DataType, u32, Seq<char>)> {
    match fields {
        Fields::Named(_, p) => p.items().map_values(
            |f: crate::parser::NamedField| (f.ty.value, f.id.unwrap().spec_get(), "self."@ + f.name.spec_get()),
        ),
        Fields::Unnamed(_, p) => p.items().map(
            |i: int, f: crate::parser::UnnamedField| (f.ty.value, f.id.unwrap().spec_get(), "self."@ + decimal(i as nat)),
        ),
        Fields::Unit => Seq::empty(),
    }
}

/// Whether every field of the struct has its identifier and a type the generator supports.
pub open spec fn fields_generable(fields: Fields) -> bool {
    match fields {
        Fields::Named(_, p) => forall|i: int|
            0 <= i < p.items().len() ==> (#[trigger] p.items()[i]).id is Some && generable(
                p.items()[i].ty.value,
            ),
        Fields::Unnamed(_, p) => forall|i: int|
            0 <= i < p.items().len() ==> (#[trigger] p.items()[i]).id is Some && generable(
                p.items()[i].ty.value,
            ),
        Fields::Unit => true,
    }
}

/// The body that the generator writes for a struct's `Size::size`: the size terms of the fields,
/// then the end marker's size; `0` for a unit struct.
pub open spec fn struct_size_text(bt: BytesType, fields: Fields) -> Seq<char> {
    match fields {
        Fields::Unit => "0"@,
        _ => size_calls_text(bt, size_fields(fields)) + end_marker_size_text(),
    }
}

/// Append the size term of one field.
fn write_field_size_call(w: &mut String, opts: &Opts, ty: &DataType, id: u32, target: &str)
    requires
        generable(*ty),
    ensures
        final(w)@ == old(w)@ + field_size_call(opts.bytes_type, *ty, id, target@),
{
    let ghost start = w@;
    match ty {
        DataType::Option { ty: inner, .. } => {
            w.append("::stef::buf::size_field_option(");
            print_decimal(w, id as u128);
            w.append(", ");
            w.append(target);
            w.append(".as_ref(), |v| { ");
            let v = arg_string(&inner.value, "v");
            write_size_expr(w, opts, &inner.value, v.as_str());
            w.append(" })");
            proof {
                reveal_strlit("::stef::buf::size_field_option(");
                reveal_strlit(", ");
                reveal_strlit(".as_ref(), |v| { ");
                reveal_strlit(" })");
                assert(w@ =~= start + field_size_call(opts.bytes_type, *ty, id, target@));
            }
        },
        _ => {
            w.append("::stef::buf::size_field(");
            print_decimal(w, id as u128);
            w.append(", || { ");
            write_size_expr(w, opts, ty, target);
            w.append(" })");
            proof {
                reveal_strlit("::stef::buf::size_field(");
                reveal_strlit(", || { ");
                reveal_strlit(" })");
                assert(w@ =~= start + field_size_call(opts.bytes_type, *ty, id, target@));
            }
        },
    }
}

/// The body of the `Size::size` implementation that the Rust code generator writes for a struct
/// with these fields.
pub fn struct_size_code(opts: &Opts, fields: &Fields) -> (r: String)
    requires
        fields_generable(*fields),
    ensures
        r@ == struct_size_text(opts.bytes_type, *fields),
{
    let mut w = String::new();
    proof {
        reveal_strlit("");
        reveal_strlit("0");
        reveal_strlit(" + ");
        reveal_strlit("self.");
        reveal_strlit("::stef::buf::size_u32(::stef::buf::END_MARKER)");
    }
    match fields {
        Fields::Unit => {
            w.append("0");
            return w;
        },
        Fields::Named(_, p) => {
            let ghost fs = size_fields(*fields);
            let n = p.len();
            let mut i: usize = 0;
            while i < n
                invariant
                    n == p.items().len(),
                    i <= n,
                    fs == size_fields(*fields),
                    *fields matches Fields::Named(_, q) && q == *p,
                    fields_generable(*fields),
                    w@ == size_calls_text(opts.bytes_type, fs.take(i as int)),
                decreases n - i,
            {
                let f = p.get(i);
                let mut target = String::new();
                target.append("self.");
                target.append(f.name.get());
                let id = match &f.id {
                    Some(id) => id.get(),
                    None => {
                        proof {
                            assert(p.items()[i as int].id is Some);
                        }
                        0
                    },
                };
                proof {
                    assert(fs[i as int] == (f.ty.value, id, target@));
                    assert(generable(p.items()[i as int].ty.value));
                }
                write_field_size_call(&mut w, opts, &f.ty.value, id, target.as_str());
                w.append(" + ");
                proof {
                    assert(fs.take(i + 1).drop_last() =~= fs.take(i as int));
                }
                i = i + 1;
            }
            proof {
                assert(fs.take(n as int) =~= fs);
            }
        },
        Fields::Unnamed(_, p) => {
            let ghost fs = size_fields(*fields);
            let n = p.len();
            let mut i: usize = 0;
            while i < n
                invariant
                    n == p.items().len(),
                    i <= n,
                    fs == size_fields(*fields),
                    *fields matches Fields::Unnamed(_, q) && q == *p,
                    fields_generable(*fields),
                    w@ == size_calls_text(opts.bytes_type, fs.take(i as int)),
                decreases n - i,
            {
                let f = p.get(i);
                let mut target = String::new();
                target.append("self.");
                print_decimal(&mut target, i as u128);
                let id = match &f.id {
                    Some(id) => id.get(),
                    None => {
                        proof {
                            assert(p.items()[i as int].id is Some);
                        }
                        0
                    },
                };
                proof {
                    assert(fs[i as int] == (f.ty.value, id, target@));
                    assert(generable(p.items()[i as int].ty.value));
                }
                write_field_size_call(&mut w, opts, &f.ty.value, id, target.as_str());
                w.append(" + ");
                proof {
                    assert(fs.take(i + 1).drop_last() =~= fs.take(i as int));
                }
                i = i + 1;
            }
            proof {
                assert(fs.take(n as int) =~= fs);
            }
        },
    }
    w.append("::stef::buf::size_u32(::stef::buf::END_MARKER)");
    w
}


/// What the runtime's encode function that the generated statement calls for a field of the data
/// type writes, by its shape: one byte for booleans and 8-bit integers, a _Varint_ for the other
/// integers, four or eight bytes for floats, and a byte array with its length in front for
/// strings, byte arrays, collections, arrays and tuples (for a collection, the length is that of
/// its items' bytes, as `law_items_written` shows).
pub open spec fn written_shape(ty: DataType, wire: Seq<u8>) -> bool {
    let scalar = |t: DataType|
        if t is U8 || t is I8 || t is Bool {
            wire.len() == 1
        } else if is_integer(t) {
            exists|v: nat| wire == #[trigger] spec_encode(v)
        } else if t is F32 {
            wire.len() == 4
        } else if t is F64 {
            wire.len() == 8
        } else {
            exists|payload: Seq<u8>|
                payload.len() < modulus_u64() && wire == #[trigger] wire_bytes(payload)
        };
    match ty {
        DataType::NonZero { ty: inner, .. } => scalar(inner.value),
        _ => scalar(ty),
    }
}

/// Generated code lets a reader skip a field it does not know: for every data type the generator
/// supports, other than options and external types, skipping by the field encoding that the
/// generator declares passes over exactly the bytes that the encode function it calls writes.
pub proof fn law_generated_field_skips(ty: DataType, wire: Seq<u8>, rest: Seq<u8>)
    requires
        generable(ty),
        !(ty is Option),
        !(ty is External),
        written_shape(ty, wire),
    ensures
        spec_skip(wire + rest, spec_field_encoding(ty).unwrap()) == Some(rest),
{
    let t = match ty {
        DataType::NonZero { ty: inner, .. } => inner.value,
        _ => ty,
    };
    if t is U8 || t is I8 || t is Bool || t is F32 || t is F64 {
        law_skip_encoded(0, Seq::empty(), wire, rest);
    } else if is_integer(t) {
        let v = choose|v: nat| wire == spec_encode(v);
        law_skip_encoded(v, Seq::empty(), wire, rest);
    } else {
        let payload = choose|payload: Seq<u8>|
            payload.len() < modulus_u64() && wire == wire_bytes(payload);
        law_skip_encoded(0, payload, wire, rest);
    }
}


/// A struct without fields writes no bytes (its generated encode writes nothing, not even the end
/// marker), so its generated size body is `0`; a struct with fields closes its size body with the
/// end marker's size, the marker its encode writes after the fields. So the size body is `0`
/// exactly for a unit struct.
pub proof fn law_struct_size_zero_iff_unit(bt: BytesType, fields: Fields)
    ensures
        (struct_size_text(bt, fields) == "0"@) <==> (fields is Unit),
        !(fields is Unit) ==> {
            let t = struct_size_text(bt, fields);
            &&& t.len() >= end_marker_size_text().len()
            &&& t.skip(t.len() - end_marker_size_text().len()) == end_marker_size_text()
        },
{
    reveal_strlit("0");
    reveal_strlit("::stef::buf::size_u32(::stef::buf::END_MARKER)");
    if !(fields is Unit) {
        let t = struct_size_text(bt, fields);
        let c = size_calls_text(bt, size_fields(fields));
        assert(t == c + end_marker_size_text());
        assert(t.skip(t.len() - end_marker_size_text().len()) =~= end_marker_size_text());
        assert(t.len() > 1);
    }
}

/// Each field's size term is made from that field, in order: its type and identifier, read at
/// `self.<its name>` for a named field and at `self.<idx>` for the unnamed field at position
/// `idx`, so that different unnamed fields are read at different places.
pub proof fn law_struct_size_targets(fields: Fields)
    ensures
        fields matches Fields::Named(_, p) ==> size_fields(fields).len() == p.items().len()
            && forall|i: int|
            0 <= i < p.items().len() ==> (#[trigger] size_fields(fields)[i]) == (
                p.items()[i].ty.value,
                p.items()[i].id.unwrap().spec_get(),
                "self."@ + p.items()[i].name.spec_get(),
            ),
        fields matches Fields::Unnamed(_, p) ==> size_fields(fields).len() == p.items().len()
            && forall|i: int|
            0 <= i < p.items().len() ==> {
                let t = (#[trigger] size_fields(fields)[i]).2;
                &&& size_fields(fields)[i].0 == p.items()[i].ty.value
                &&& size_fields(fields)[i].1 == p.items()[i].id.unwrap().spec_get()
                &&& t.take(5) == "self."@
                &&& crate::parser::print::all_digits(t.skip(5))
                &&& crate::parser::types::digits_value(t.skip(5)) == i
            },
        fields matches Fields::Unnamed(_, p) ==> forall|i: int, j: int|
            0 <= i < j < p.items().len() ==> (#[trigger] size_fields(fields)[i]).2
                != (#[trigger] size_fields(fields)[j]).2,
{
    reveal_strlit("self.");
    if let Fields::Unnamed(_, p) = fields {
        assert forall|i: int| 0 <= i < p.items().len() implies {
            let t = (#[trigger] size_fields(fields)[i]).2;
            &&& size_fields(fields)[i].0 == p.items()[i].ty.value
            &&& size_fields(fields)[i].1 == p.items()[i].id.unwrap().spec_get()
            &&& t.take(5) == "self."@
            &&& crate::parser::print::all_digits(t.skip(5))
            &&& crate::parser::types::digits_value(t.skip(5)) == i
        } by {
            let t = size_fields(fields)[i].2;
            crate::parser::types::lemma_decimal(i as nat);
            assert(t.take(5) =~= "self."@);
            assert(t.skip(5) =~= decimal(i as nat));
        }
        assert forall|i: int, j: int|
            0 <= i < j < p.items().len() implies (#[trigger] size_fields(fields)[i]).2
                != (#[trigger] size_fields(fields)[j]).2 by {
            let a = size_fields(fields)[i].2;
            let b = size_fields(fields)[j].2;
            crate::parser::types::lemma_decimal(i as nat);
            crate::parser::types::lemma_decimal(j as nat);
            assert(a.skip(5) =~= decimal(i as nat));
            assert(b.skip(5) =~= decimal(j as nat));
            if a == b {
                assert(a.skip(5) == b.skip(5));
            }
        }
    }
}

} // verus!
