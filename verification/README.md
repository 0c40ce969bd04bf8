# mabo

Verified core of the Mabo data format and its schema compiler.

- `varint`: the _Varint_ integer encoding (LEB128 style, zigzag for signed numbers), with proofs
  that decoding reads back what encoding wrote; `varint::big` does the same for integers of any
  size, held as base-2^32 digits, with the arithmetic done by `num-bigint`.
- `buf`: encoding, decoding and size calculation of all wire values (integers, booleans, byte
  arrays, strings, field and variant identifiers, vectors, options, hash maps and sets, non-zero
  containers), and skipping of unknown fields.
- `parser`: the data model of schema files (definitions, fields, types, tokens, punctuated lists),
  their printing back to text, and parsers for types, fields, enums, generics and aliases, with
  proofs that printed types, fields, generics, aliases and enums parse back to their shapes.
- `compiler`: schema validation (unique identifiers and names) and type resolution across modules
  and schemas.
- `cli`: the commands of the command line tool, as values.
- `codegen`: the Rust code generator's choices and texts: the field encoding of a type, the size
  and encode expressions of a value, and the size body of a struct, with a proof that skipping by
  the declared encoding passes over what the called encoder writes.
- `go`: Go source fragments, and (`go::size`) the Go size expressions of types and fields, with
  the Go type names supplied by the caller and names converted to UpperCamelCase by `heck`.
- `doc`: relative links and comment paragraphs of the documentation generator.
- `benches`: alternative varint styles used for comparison, and a generator of large schemas.

`app/` holds what works on floating point numbers (the `f32`/`f64` wire format, float literals,
and the float text of the schema generator), and the conversions between `num-bigint`'s integers
and the library's digit form.
