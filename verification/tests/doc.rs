use mabo::codegen::{field_encoding, is_copy};
use mabo::FieldEncoding;
use mabo::doc::{first_comment, merge_comments, path_up, PathUp};
use mabo::parser::{Comment, CommentLine, DataType, Span};

fn comment(lines: &[&'static str]) -> Comment<'static> {
    Comment(
        lines
            .iter()
            .map(|line| CommentLine::new(line, Span::new(0, 0)))
            .collect(),
    )
}

#[test]
fn first_comment_stops_at_blank_line() {
    let c = comment(&["Summary line", "continues here", "  \t", "Details"]);
    assert_eq!(first_comment(&c), "Summary line\ncontinues here\n");
}

#[test]
fn first_comment_without_blank_line_takes_everything() {
    let c = comment(&["one", "two"]);
    assert_eq!(first_comment(&c), "one\ntwo\n");
}

#[test]
fn first_comment_blank_first_line_or_empty() {
    assert_eq!(first_comment(&comment(&["", "text"])), "");
    assert_eq!(first_comment(&comment(&[])), "");
    // Unicode whitespace counts as blank too.
    assert_eq!(first_comment(&comment(&["a", "\u{a0}\u{3000}", "b"])), "a\n");
}

#[test]
fn merge_comments_keeps_all_lines() {
    let c = comment(&["Summary", "", "Details"]);
    assert_eq!(merge_comments(&c), "Summary\n\nDetails\n");
    assert_eq!(merge_comments(&comment(&[])), "");
}

#[test]
fn path_up_counts_levels_below() {
    let p = path_up(3, &0);
    assert_eq!(p.0, 2);
    assert_eq!(p.to_text(), "../../");
    assert_eq!(path_up(3, &2).to_text(), "");
    assert_eq!(PathUp(1).to_text(), "../");
}

#[test]
fn is_copy_for_primitives_only() {
    for ty in [
        DataType::Bool,
        DataType::U8,
        DataType::U16,
        DataType::U32,
        DataType::U64,
        DataType::U128,
        DataType::I8,
        DataType::I16,
        DataType::I32,
        DataType::I64,
        DataType::I128,
        DataType::F32,
        DataType::F64,
    ] {
        assert!(is_copy(&ty), "{ty:?}");
    }
    for ty in [
        DataType::String,
        DataType::StringRef,
        DataType::Bytes,
        DataType::BytesRef,
    ] {
        assert!(!is_copy(&ty), "{ty:?}");
    }
}

#[test]
fn field_encodings_of_primitives() {
    assert_eq!(FieldEncoding::Fixed1, field_encoding(&DataType::Bool));
    assert_eq!(FieldEncoding::Fixed1, field_encoding(&DataType::I8));
    assert_eq!(FieldEncoding::Varint, field_encoding(&DataType::U16));
    assert_eq!(FieldEncoding::Varint, field_encoding(&DataType::I128));
    assert_eq!(FieldEncoding::Fixed4, field_encoding(&DataType::F32));
    assert_eq!(FieldEncoding::Fixed8, field_encoding(&DataType::F64));
    assert_eq!(FieldEncoding::LengthPrefixed, field_encoding(&DataType::String));
    assert_eq!(FieldEncoding::LengthPrefixed, field_encoding(&DataType::BytesRef));
    assert_eq!(FieldEncoding::LengthPrefixed, field_encoding(&DataType::BoxString));
}
