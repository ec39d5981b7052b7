use crypto_journal::document::Document;
use crypto_journal::document::Position;
use crypto_journal::row::Row;

fn doc_from(text: &str) -> Document {
    Document::open_from_u8(text.as_bytes().to_vec(), "01_01_2024").unwrap()
}

#[test]
fn open_from_u8_splits_lines() {
    let d = doc_from("hello\nworld");
    assert_eq!(d.len(), 2);
    assert_eq!(d.row(0).unwrap().as_string(), "hello");
    assert_eq!(d.row(1).unwrap().as_string(), "world");
    assert!(!d.is_dirty());
    assert_eq!(d.file_name().unwrap(), "01_01_2024");
}

#[test]
fn open_from_u8_final_line_ending_is_optional() {
    let with = doc_from("x\n");
    let without = doc_from("x");
    assert_eq!(with.len(), 1);
    assert_eq!(without.len(), 1);
    assert_eq!(with.row(0).unwrap().as_string(), "x");
}

#[test]
fn open_from_u8_handles_crlf_and_empty_lines() {
    let d = doc_from("a\r\nb\n\nc");
    assert_eq!(d.len(), 4);
    assert_eq!(d.row(0).unwrap().as_string(), "a");
    assert_eq!(d.row(1).unwrap().as_string(), "b");
    assert_eq!(d.row(2).unwrap().as_string(), "");
    assert_eq!(d.row(3).unwrap().as_string(), "c");
}

#[test]
fn open_from_u8_rejects_invalid_encoding() {
    let r = Document::open_from_u8(vec![0x68, 0x69, 0xff, 0xfe], "d");
    assert!(r.is_err());
}

#[test]
fn open_from_u8_empty_input_is_empty_buffer() {
    let d = doc_from("");
    assert!(d.is_empty());
    assert_eq!(d.to_string(), "");
}

#[test]
fn to_string_terminates_every_row() {
    let d = doc_from("hello\nworld");
    assert_eq!(d.to_string(), "hello\nworld\n");
}

#[test]
fn insert_and_delete_characters() {
    let mut d = doc_from("hllo");
    d.insert(&Position { x: 1, y: 0 }, 'e');
    assert_eq!(d.row(0).unwrap().as_string(), "hello");
    assert!(d.is_dirty());
    d.delete(&Position { x: 0, y: 0 });
    assert_eq!(d.row(0).unwrap().as_string(), "ello");
}

#[test]
fn newline_split_then_delete_merges_back() {
    // inserting a line break in a row and deleting at the split point is
    // the inverse of the split
    let mut d = doc_from("hello");
    d.insert(&Position { x: 2, y: 0 }, '\n');
    assert_eq!(d.len(), 2);
    assert_eq!(d.row(0).unwrap().as_string(), "he");
    assert_eq!(d.row(1).unwrap().as_string(), "llo");
    d.delete(&Position { x: 2, y: 0 });
    assert_eq!(d.len(), 1);
    assert_eq!(d.row(0).unwrap().as_string(), "hello");
    assert!(d.is_dirty());
}

#[test]
fn newline_at_row_end_then_delete_restores() {
    let mut d = doc_from("hello");
    d.insert(&Position { x: 5, y: 0 }, '\n');
    assert_eq!(d.len(), 2);
    assert_eq!(d.row(1).unwrap().as_string(), "");
    d.delete(&Position { x: 5, y: 0 });
    assert_eq!(d.len(), 1);
    assert_eq!(d.row(0).unwrap().as_string(), "hello");
}

#[test]
fn insert_then_delete_same_position_keeps_row_and_dirty() {
    // dirty is sticky: the inverse edit does not clear it
    let mut d = doc_from("abc");
    d.insert(&Position { x: 1, y: 0 }, 'z');
    assert_eq!(d.row(0).unwrap().as_string(), "azbc");
    d.delete(&Position { x: 1, y: 0 });
    assert_eq!(d.row(0).unwrap().as_string(), "abc");
    assert!(d.is_dirty());
}

#[test]
fn out_of_range_edits_are_no_ops() {
    let mut d = doc_from("abc");
    d.insert(&Position { x: 0, y: 5 }, 'x');
    assert_eq!(d.len(), 1);
    assert!(!d.is_dirty());
    d.delete(&Position { x: 0, y: 5 });
    assert_eq!(d.len(), 1);
    assert!(!d.is_dirty());
    assert_eq!(d.row(0).unwrap().as_string(), "abc");
}

#[test]
fn delete_at_row_end_merges_next_row_upward() {
    let mut d = doc_from("ab\ncd");
    d.delete(&Position { x: 2, y: 0 });
    assert_eq!(d.len(), 1);
    assert_eq!(d.row(0).unwrap().as_string(), "abcd");
}

#[test]
fn save_clears_dirty() {
    let mut d = doc_from("abc");
    d.insert(&Position { x: 0, y: 0 }, 'x');
    assert!(d.is_dirty());
    d.save();
    assert!(!d.is_dirty());
}

#[test]
fn multibyte_characters_are_addressed_by_character_index() {
    let mut d = doc_from("h\u{e9}llo");
    assert_eq!(d.row(0).unwrap().len(), 5);
    d.delete(&Position { x: 1, y: 0 });
    assert_eq!(d.row(0).unwrap().as_string(), "hllo");
}

#[test]
fn row_split_and_append() {
    let mut r = Row::from_text("hello");
    let suffix = r.split(2);
    assert_eq!(r.as_string(), "he");
    assert_eq!(suffix.as_string(), "llo");
    r.append(&suffix);
    assert_eq!(r.as_string(), "hello");
    assert_eq!(r.len(), 5);
    assert!(!r.is_empty());
}
