use mcpls_core::diagnostics::{Position, Range};
use mcpls_core::encoding::{EncodingConverter, PositionEncoding};
use mcpls_core::offsets::LineTable;

fn at(line: u32, character: u32) -> Position {
    Position { line, character }
}

fn between(start: Position, end: Position) -> Range {
    Range { start, end }
}

fn utf16() -> EncodingConverter {
    EncodingConverter::new(PositionEncoding::Utf16)
}

#[test]
fn test_resolves_ascii_position() {
    let table = LineTable::new("fn main() {}\nlet x = 1;\n");
    let offset = table
        .byte_offset(at(1, 4), &utf16())
        .expect("position resolves");
    assert_eq!(offset, 17, "line 1 starts at 13, plus 4 columns");
}

#[test]
fn test_counts_utf16_units_not_bytes() {
    // "héllo" is 6 bytes and 5 UTF-16 units; column 3 sits after "hél".
    let table = LineTable::new("héllo\n");
    let offset = table
        .byte_offset(at(0, 3), &utf16())
        .expect("position resolves");
    assert_eq!(offset, 4, "h=1, é=2, l=1");
}

#[test]
fn test_counts_utf8_bytes_when_the_server_negotiated_utf8() {
    let table = LineTable::new("héllo\n");
    let converter = EncodingConverter::new(PositionEncoding::Utf8);
    let offset = table
        .byte_offset(at(0, 4), &converter)
        .expect("position resolves");
    assert_eq!(offset, 4, "in UTF-8 the column is already a byte offset");
}

#[test]
fn test_crlf_line_keeps_carriage_return() {
    let table = LineTable::new("ab\r\ncd\r\n");
    let offset = table
        .byte_offset(at(1, 2), &utf16())
        .expect("position resolves");
    assert_eq!(offset, 6, "line 1 starts at 4 and \\r belongs to line 0");
}

#[test]
fn test_position_on_line_after_final_terminator() {
    let table = LineTable::new("a\n");
    let offset = table
        .byte_offset(at(1, 0), &utf16())
        .expect("the empty final line is addressable");
    assert_eq!(offset, 2);
}

#[test]
fn test_column_past_end_of_line_clamps_to_the_line_end() {
    let table = LineTable::new("abc\ndef\n");
    let offset = table
        .byte_offset(at(0, 99), &utf16())
        .expect("a column past the end is clamped, not refused");
    assert_eq!(offset, 3, "end of line 0, before its newline");
}

#[test]
fn test_line_beyond_document_is_an_error() {
    let table = LineTable::new("a\n");
    assert!(table.byte_offset(at(9, 0), &utf16()).is_err());
}

#[test]
fn test_byte_range_spans_lines() {
    let table = LineTable::new("abc\ndef\n");
    let range = table
        .byte_range(
            between(at(0, 1), at(1, 2)),
            &utf16(),
        )
        .expect("range resolves");
    assert_eq!(range, (1, 6));
}

#[test]
fn test_inverted_range_is_an_error() {
    let table = LineTable::new("abc\ndef\n");
    let range = between(at(1, 2), at(0, 1));
    assert!(table.byte_range(range, &utf16()).is_err());
}

#[test]
fn the_lines_of_a_text_are_handed_out_without_their_newline() {
    let table = LineTable::new("ab\r\ncd");
    assert_eq!(table.line(0).unwrap(), vec!['a', 'b', '\r']);
    assert_eq!(table.line(1).unwrap(), vec!['c', 'd']);
    assert!(table.line(2).is_err());
    assert!(table.has_line_after(0));
    assert!(!table.has_line_after(1));
}

#[test]
fn a_column_inside_a_character_is_an_error() {
    let table = LineTable::new("h\u{e9}llo\n");
    let utf8 = EncodingConverter::new(PositionEncoding::Utf8);
    assert!(table.byte_offset(at(0, 2), &utf8).is_err());
    let table = LineTable::new("\u{1f600}x");
    assert!(table.byte_offset(at(0, 1), &utf16()).is_err());
    assert_eq!(table.byte_offset(at(0, 2), &utf16()).unwrap(), 4);
    let utf32 = EncodingConverter::new(PositionEncoding::Utf32);
    assert_eq!(table.byte_offset(at(0, 1), &utf32).unwrap(), 4);
}
