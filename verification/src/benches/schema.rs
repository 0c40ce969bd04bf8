//! Generator of large schema files that exercise every kind of definition, for benchmarks.

use crate::parser::print::{decimal, print_decimal};
use vstd::prelude::*;
use vstd::string::StringExecFns;

verus! {

/// A number padded with zeros to five digits.
pub open spec fn padded(i: nat) -> Seq<char> {
    if i < 10 {
        "0000"@ + decimal(i)
    } else if i < 100 {
        "000"@ + decimal(i)
    } else if i < 1000 {
        "00"@ + decimal(i)
    } else if i < 10000 {
        "0"@ + decimal(i)
    } else {
        decimal(i)
    }
}

/// The import line for position `i`.
pub open spec fn use_line(i: nat) -> Seq<char> {
    "use some::other::module"@ + decimal(i) + ";\n"@
}

/// The constant lines for position `i`, with the display form of `i / 19` as float.
pub open spec fn const_lines(i: nat, float: Seq<char>) -> Seq<char> {
    bool_const_line(i) + int_const_line(i) + float_const_line(i, float) + str_const_line(i)
        + bytes_const_line(i)
}

/// The boolean constant for position `i`: true for even positions.
pub open spec fn bool_const_line(i: nat) -> Seq<char> {
    "const VALUE_BOOL_"@ + decimal(i) + ": bool = "@ + (if i % 2 == 0 {
        "true"@
    } else {
        "false"@
    }) + ";\n"@
}

/// The integer constant for position `i`.
pub open spec fn int_const_line(i: nat) -> Seq<char> {
    "const VALUE_INT_"@ + decimal(i) + ": u32 = "@ + decimal(i) + ";\n"@
}

/// The float constant for position `i`.
pub open spec fn float_const_line(i: nat, float: Seq<char>) -> Seq<char> {
    "const VALUE_FLOAT_"@ + decimal(i) + ": f64 = "@ + float + ";\n"@
}

/// The string constant for position `i`.
pub open spec fn str_const_line(i: nat) -> Seq<char> {
    "const VALUE_STR_"@ + decimal(i) + ": &string = \""@ + decimal(i) + "\";\n"@
}

/// The bytes constant for position `i`.
pub open spec fn bytes_const_line(i: nat) -> Seq<char> {
    "const VALUE_BYTES_"@ + decimal(i) + ": &bytes = ["@ + decimal(i % 256) + "];\n"@
}

/// The comment line for position `i`.
pub open spec fn comment_line(i: nat) -> Seq<char> {
    "/// Some comment "@ + decimal(i) + "\n"@
}

/// The attribute lines for position `i`.
pub open spec fn attribute_lines(i: nat) -> Seq<char> {
    "#[unit_attribute_"@ + decimal(i) + "]\n"@ + "#[single_value_"@ + decimal(i) + " = \"value_"@
        + decimal(i) + "\"]\n"@ + "#[multi_value_"@ + decimal(i)
        + "(value_a = true, value_b(test1, test2), value_c)]\n"@
}

/// The named field lines for position `i` of `count`.
pub open spec fn named_lines(i: nat, count: nat) -> Seq<char> {
    "    field_str_"@ + padded(i) + ": string @"@ + decimal(i) + ",\n"@ + "    field_gen_"@ + padded(
        i,
    ) + ": vec<hash_map<u32, (bool, string, option<f64>)>> @"@ + decimal(i + count) + ",\n"@
}

/// The unnamed fields for position `i` of `count`.
pub open spec fn unnamed_items(i: nat, count: nat) -> Seq<char> {
    "string @"@ + decimal(i) + ","@ + "vec<hash_map<u32, (bool, string, option<f64>)>> @"@
        + decimal(i + count) + ","@
}

/// The variant lines for position `i` of `count`: a variant with named fields, then one with
/// unnamed fields.
pub open spec fn variant_lines(i: nat, count: nat) -> Seq<char> {
    named_variant_lines(i) + unnamed_variant_line(i, count)
}

/// The lines of the variant with named fields for position `i`.
pub open spec fn named_variant_lines(i: nat) -> Seq<char> {
    "    VariantNamed"@ + decimal(i) + " {\n"@ + "        field_str: string @1,\n"@
        + "        field_gen: vec<hash_set<u32>> @2,\n"@ + "    } @"@ + decimal(i) + ",\n"@
}

/// The line of the variant with unnamed fields for position `i` of `count`.
pub open spec fn unnamed_variant_line(i: nat, count: nat) -> Seq<char> {
    "    VariantUnnamed"@ + decimal(i) + "("@ + "string @1, vec<hash_set<u32>> @2"@ + ") @"@
        + decimal(i + count) + ",\n"@
}

/// The alias line for position `i`.
pub open spec fn alias_line(i: nat) -> Seq<char> {
    "type Alias"@ + decimal(i) + " = SampleNamed;\n"@
}

/// The import lines for the positions up to `n`.
pub open spec fn uses_block(n: nat) -> Seq<char>
    decreases n,
{
    if n == 0 {
        Seq::empty()
    } else {
        uses_block((n - 1) as nat) + use_line(n)
    }
}

/// The constant lines for the positions up to `n`.
pub open spec fn consts_block(n: nat, floats: Seq<Seq<char>>) -> Seq<char>
    decreases n,
{
    if n == 0 {
        Seq::empty()
    } else {
        consts_block((n - 1) as nat, floats) + const_lines(n, floats[n - 1])
    }
}

/// The comment lines for the positions up to `n`.
pub open spec fn comments_block(n: nat) -> Seq<char>
    decreases n,
{
    if n == 0 {
        Seq::empty()
    } else {
        comments_block((n - 1) as nat) + comment_line(n)
    }
}

/// The attribute lines for the positions up to `n`.
pub open spec fn attributes_block(n: nat) -> Seq<char>
    decreases n,
{
    if n == 0 {
        Seq::empty()
    } else {
        attributes_block((n - 1) as nat) + attribute_lines(n)
    }
}

/// The named field lines for the positions up to `n` of `count`.
pub open spec fn named_block(n: nat, count: nat) -> Seq<char>
    decreases n,
{
    if n == 0 {
        Seq::empty()
    } else {
        named_block((n - 1) as nat, count) + named_lines(n, count)
    }
}

/// The unnamed fields for the positions up to `n` of `count`.
pub open spec fn unnamed_block(n: nat, count: nat) -> Seq<char>
    decreases n,
{
    if n == 0 {
        Seq::empty()
    } else {
        unnamed_block((n - 1) as nat, count) + unnamed_items(n, count)
    }
}

/// The variant lines for the positions up to `n` of `count`.
pub open spec fn variants_block(n: nat, count: nat) -> Seq<char>
    decreases n,
{
    if n == 0 {
        Seq::empty()
    } else {
        variants_block((n - 1) as nat, count) + variant_lines(n, count)
    }
}

/// The alias lines for the positions up to `n`.
pub open spec fn aliases_block(n: nat) -> Seq<char>
    decreases n,
{
    if n == 0 {
        Seq::empty()
    } else {
        aliases_block((n - 1) as nat) + alias_line(n)
    }
}

/// The whole generated schema for `count` repetitions, with the given display forms of the
/// floats `i / 19` (one per position, in order).
pub open spec fn schema_text(count: nat, floats: Seq<Seq<char>>) -> Seq<char> {
    uses_block(count) + "\n"@ + consts_block(count, floats) + "\n"@ + comments_block(count)
        + attributes_block(count) + "struct SampleNamed {\n"@ + named_block(count, count) + "}\n"@
        + "\nstruct SampleUnnamed("@ + unnamed_block(count, count) + ")\n"@ + "\nenum SampleEnum {\n"@
        + variants_block(count, count) + "}\n"@ + "\n"@ + aliases_block(count)
}

/// Append a number padded with zeros to five digits.
fn print_padded(out: &mut String, i: usize)
    ensures
        final(out)@ == old(out)@ + padded(i as nat),
{
    let ghost start = out@;
    if i < 10 {
        out.append("0000");
    } else if i < 100 {
        out.append("000");
    } else if i < 1000 {
        out.append("00");
    } else if i < 10000 {
        out.append("0");
    }
    print_decimal(out, i as u128);
    proof {
        assert(out@ =~= start + padded(i as nat));
    }
}

/// Append the boolean constant for position `i`.
fn push_bool_const(input: &mut String, i: usize)
    ensures
        final(input)@ == old(input)@ + bool_const_line(i as nat),
{
    let ghost p0 = input@;
    input.append("const VALUE_BOOL_");
    print_decimal(input, i as u128);
    input.append(": bool = ");
    if i % 2 == 0 {
        input.append("true");
    } else {
        input.append("false");
    }
    input.append(";\n");
    proof {
        assert(input@ =~= p0 + bool_const_line(i as nat));
    }
}

/// Append the integer constant for position `i`.
fn push_int_const(input: &mut String, i: usize)
    ensures
        final(input)@ == old(input)@ + int_const_line(i as nat),
{
    let ghost p0 = input@;
    input.append("const VALUE_INT_");
    print_decimal(input, i as u128);
    input.append(": u32 = ");
    print_decimal(input, i as u128);
    input.append(";\n");
    proof {
        assert(input@ =~= p0 + int_const_line(i as nat));
    }
}

/// Append the float constant for position `i`.
fn push_float_const(input: &mut String, i: usize, float: &String)
    ensures
        final(input)@ == old(input)@ + float_const_line(i as nat, float@),
{
    let ghost p0 = input@;
    input.append("const VALUE_FLOAT_");
    print_decimal(input, i as u128);
    input.append(": f64 = ");
    input.append(float.as_str());
    input.append(";\n");
    proof {
        assert(input@ =~= p0 + float_const_line(i as nat, float@));
    }
}

/// Append the string constant for position `i`.
fn push_str_const(input: &mut String, i: usize)
    ensures
        final(input)@ == old(input)@ + str_const_line(i as nat),
{
    let ghost p0 = input@;
    input.append("const VALUE_STR_");
    print_decimal(input, i as u128);
    input.append(": &string = \"");
    print_decimal(input, i as u128);
    input.append("\";\n");
    proof {
        assert(input@ =~= p0 + str_const_line(i as nat));
    }
}

/// Append the bytes constant for position `i`.
fn push_bytes_const(input: &mut String, i: usize)
    ensures
        final(input)@ == old(input)@ + bytes_const_line(i as nat),
{
    let ghost p0 = input@;
    input.append("const VALUE_BYTES_");
    print_decimal(input, i as u128);
    input.append(": &bytes = [");
    print_decimal(input, (i % 256) as u128);
    input.append("];\n");
    proof {
        assert(input@ =~= p0 + bytes_const_line(i as nat));
    }
}

/// Append the constant lines for position `i`.
fn push_const_lines(input: &mut String, i: usize, float: &String)
    ensures
        final(input)@ == old(input)@ + const_lines(i as nat, float@),
{
    let ghost p0 = input@;
    push_bool_const(input, i);
    push_int_const(input, i);
    push_float_const(input, i, float);
    push_str_const(input, i);
    push_bytes_const(input, i);
    proof {
        assert(input@ =~= p0 + const_lines(i as nat, float@));
    }
}

/// Append the attribute lines for position `i`.
fn push_attribute_lines(input: &mut String, i: usize)
    ensures
        final(input)@ == old(input)@ + attribute_lines(i as nat),
{
    let ghost before = input@;
    input.append("#[unit_attribute_");
    print_decimal(input, i as u128);
    input.append("]\n");
    input.append("#[single_value_");
    print_decimal(input, i as u128);
    input.append(" = \"value_");
    print_decimal(input, i as u128);
    input.append("\"]\n");
    input.append("#[multi_value_");
    print_decimal(input, i as u128);
    input.append("(value_a = true, value_b(test1, test2), value_c)]\n");
    proof {
        assert(input@ =~= before + attribute_lines(i as nat));
    }
}

/// Append the named field lines for position `i` of `count`.
fn push_named_lines(input: &mut String, i: usize, count: usize)
    requires
        i + count <= usize::MAX,
    ensures
        final(input)@ == old(input)@ + named_lines(i as nat, count as nat),
{
    let ghost before = input@;
    input.append("    field_str_");
    print_padded(input, i);
    input.append(": string @");
    print_decimal(input, i as u128);
    input.append(",\n");
    input.append("    field_gen_");
    print_padded(input, i);
    input.append(": vec<hash_map<u32, (bool, string, option<f64>)>> @");
    print_decimal(input, (i + count) as u128);
    input.append(",\n");
    proof {
        assert(input@ =~= before + named_lines(i as nat, count as nat));
    }
}

/// Append the unnamed fields for position `i` of `count`.
fn push_unnamed_items(input: &mut String, i: usize, count: usize)
    requires
        i + count <= usize::MAX,
    ensures
        final(input)@ == old(input)@ + unnamed_items(i as nat, count as nat),
{
    let ghost before = input@;
    input.append("string @");
    print_decimal(input, i as u128);
    input.append(",");
    input.append("vec<hash_map<u32, (bool, string, option<f64>)>> @");
    print_decimal(input, (i + count) as u128);
    input.append(",");
    proof {
        assert(input@ =~= before + unnamed_items(i as nat, count as nat));
    }
}

/// Append the variant lines for position `i` of `count`.
fn push_variant_lines(input: &mut String, i: usize, count: usize)
    requires
        i + count <= usize::MAX,
    ensures
        final(input)@ == old(input)@ + variant_lines(i as nat, count as nat),
{
    let ghost before = input@;
    input.append("    VariantNamed");
    print_decimal(input, i as u128);
    input.append(" {\n");
    input.append("        field_str: string @1,\n");
    input.append("        field_gen: vec<hash_set<u32>> @2,\n");
    input.append("    } @");
    print_decimal(input, i as u128);
    input.append(",\n");
    let ghost middle = input@;
    proof {
        assert(middle =~= before + named_variant_lines(i as nat));
    }
    input.append("    VariantUnnamed");
    print_decimal(input, i as u128);
    input.append("(");
    input.append("string @1, vec<hash_set<u32>> @2");
    input.append(") @");
    print_decimal(input, (i + count) as u128);
    input.append(",\n");
    proof {
        assert(input@ =~= middle + unnamed_variant_line(i as nat, count as nat));
        assert(input@ =~= before + variant_lines(i as nat, count as nat));
    }
}

/// Generate a schema with `count` repetitions of each kind of definition: imports, constants,
/// comments and attributes, fields of a named and an unnamed struct, enum variants and aliases.
///
/// `floats` holds, for each position `i` from 1 to `count`, the display form of the float
/// `i / 19`, which the constants declare.
pub fn generate_schema(count: usize, floats: &Vec<String>) -> (r: String)
    requires
        floats@.len() == count,
        count <= usize::MAX / 2,
    ensures
        r@ == schema_text(count as nat, floats@.map_values(|f: String| f@)),
{
    let ghost fs = floats@.map_values(|f: String| f@);
    let mut input = String::new();
    let mut i: usize = 1;
    while i <= count
        invariant
            1 <= i <= count + 1,
            count <= usize::MAX / 2,
            input@ == uses_block((i - 1) as nat),
        decreases count + 1 - i,
    {
        let ghost before = input@;
        input.append("use some::other::module");
        print_decimal(&mut input, i as u128);
        input.append(";\n");
        proof {
            assert(input@ =~= before + use_line(i as nat));
        }
        i = i + 1;
    }
    input.append("\n");
    let ghost part1 = input@;
    let mut i: usize = 1;
    while i <= count
        invariant
            1 <= i <= count + 1,
            count <= usize::MAX / 2,
            floats@.len() == count,
            fs == floats@.map_values(|f: String| f@),
            input@ == part1 + consts_block((i - 1) as nat, fs),
        decreases count + 1 - i,
    {
        let ghost before = input@;
        push_const_lines(&mut input, i, &floats[i - 1]);
        proof {
            assert(fs[i - 1] == floats@[i - 1]@);
            assert(input@ =~= part1 + consts_block(i as nat, fs));
        }
        i = i + 1;
    }
    input.append("\n");
    let ghost part2 = input@;
    let mut i: usize = 1;
    while i <= count
        invariant
            1 <= i <= count + 1,
            count <= usize::MAX / 2,
            input@ == part2 + comments_block((i - 1) as nat),
        decreases count + 1 - i,
    {
        let ghost before = input@;
        input.append("/// Some comment ");
        print_decimal(&mut input, i as u128);
        input.append("\n");
        proof {
            assert(input@ =~= part2 + comments_block(i as nat));
        }
        i = i + 1;
    }
    let ghost part3 = input@;
    let mut i: usize = 1;
    while i <= count
        invariant
            1 <= i <= count + 1,
            count <= usize::MAX / 2,
            input@ == part3 + attributes_block((i - 1) as nat),
        decreases count + 1 - i,
    {
        push_attribute_lines(&mut input, i);
        proof {
            assert(input@ =~= part3 + attributes_block(i as nat));
        }
        i = i + 1;
    }
    input.append("struct SampleNamed {\n");
    let ghost part4 = input@;
    let mut i: usize = 1;
    while i <= count
        invariant
            1 <= i <= count + 1,
            count <= usize::MAX / 2,
            input@ == part4 + named_block((i - 1) as nat, count as nat),
        decreases count + 1 - i,
    {
        push_named_lines(&mut input, i, count);
        proof {
            assert(input@ =~= part4 + named_block(i as nat, count as nat));
        }
        i = i + 1;
    }
    input.append("}\n");
    input.append("\nstruct SampleUnnamed(");
    let ghost part5 = input@;
    let mut i: usize = 1;
    while i <= count
        invariant
            1 <= i <= count + 1,
            count <= usize::MAX / 2,
            input@ == part5 + unnamed_block((i - 1) as nat, count as nat),
        decreases count + 1 - i,
    {
        push_unnamed_items(&mut input, i, count);
        proof {
            assert(input@ =~= part5 + unnamed_block(i as nat, count as nat));
        }
        i = i + 1;
    }
    input.append(")\n");
    input.append("\nenum SampleEnum {\n");
    let ghost part6 = input@;
    let mut i: usize = 1;
    while i <= count
        invariant
            1 <= i <= count + 1,
            count <= usize::MAX / 2,
            input@ == part6 + variants_block((i - 1) as nat, count as nat),
        decreases count + 1 - i,
    {
        push_variant_lines(&mut input, i, count);
        proof {
            assert(input@ =~= part6 + variants_block(i as nat, count as nat));
        }
        i = i + 1;
    }
    input.append("}\n");
    input.append("\n");
    let ghost part7 = input@;
    let mut i: usize = 1;
    while i <= count
        invariant
            1 <= i <= count + 1,
            count <= usize::MAX / 2,
            input@ == part7 + aliases_block((i - 1) as nat),
        decreases count + 1 - i,
    {
        input.append("type Alias");
        print_decimal(&mut input, i as u128);
        input.append(" = SampleNamed;\n");
        proof {
            assert(input@ =~= part7 + aliases_block(i as nat));
        }
        i = i + 1;
    }
    proof {
        assert(input@ =~= schema_text(count as nat, fs));
    }
    input
}

} // verus!
