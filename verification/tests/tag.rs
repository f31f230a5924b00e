use c2pa_font_handler::error::FontIoError;
use c2pa_font_handler::io::Cursor;
use c2pa_font_handler::tag::FontTag;
use c2pa_font_handler::{FontDataExactRead, FontDataWrite};

#[test]
fn test_tag_read_exact() {
    let mut reader = Cursor::new(b"bb2c".to_vec());
    let result = FontTag::from_reader_exact(&mut reader, 0, 4);
    assert!(result.is_ok());
    let tag = result.unwrap();
    assert_eq!(tag.data(), *b"bb2c");
}

#[test]
fn test_tag_read_exact_with_bad_size() {
    let mut reader = Cursor::new(b"bb2c".to_vec());
    let result = FontTag::from_reader_exact(&mut reader, 0, 3);
    assert!(result.is_err());
    let err = result.err().unwrap();
    assert!(matches!(err, FontIoError::InvalidSizeForTAG(3)));
}

#[test]
fn test_tag_read_exact_with_invalid_sized_buffer() {
    let mut reader = Cursor::new(b"bb2".to_vec());
    let result = FontTag::from_reader_exact(&mut reader, 0, 4);
    assert!(result.is_err());
    let err = result.err().unwrap();
    assert!(matches!(err, FontIoError::IoError(_)));
    assert_eq!(err.to_string(), "failed to fill whole buffer");
}

#[test]
fn test_tag_write() {
    let tag = FontTag::new(*b"bb2c");
    let mut writer = Cursor::new(Vec::new());
    let result = tag.write(&mut writer);
    assert!(result.is_ok());
    assert_eq!(writer.into_inner(), b"bb2c");
}

#[test]
fn test_tag_display() {
    let tag = FontTag::new(*b"bb2c");
    assert_eq!(tag.to_string(), "bb2c");
}

#[test]
fn test_tag_debug() {
    let tag = FontTag::new(*b"bb2c");
    assert_eq!(tag.debug_string(), "FontTag(bb2c)");
}

#[test]
fn tag_keys_order_as_bytes() {
    assert_eq!(FontTag::new(*b"C2PA").key(), 0x43325041);
    assert!(FontTag::new(*b"DSIG").key() < FontTag::new(*b"head").key());
    assert!(FontTag::c2pa().same(&FontTag::new(*b"C2PA")));
    assert!(!FontTag::dsig().same(&FontTag::head()));
}

#[test]
fn tag_display_replaces_invalid_bytes() {
    let tag = FontTag::new([0x61, 0xff, 0x62, 0x63]);
    assert_eq!(tag.to_string(), "a\u{fffd}bc");
}
