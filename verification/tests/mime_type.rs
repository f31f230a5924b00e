use c2pa_font_handler::io::Cursor;
use c2pa_font_handler::mime_type::{FontMimeTypeGuesser, FontMimeTypes, MimeTypeError};

#[test]
fn test_guess_mime_type_otf() {
    let mut reader = Cursor::new(b"\x00\x01\x00\x00".to_vec());
    let mime_type = reader.guess_mime_type().unwrap();
    assert_eq!(mime_type, FontMimeTypes::OTF);

    let mut reader = Cursor::new(b"OTTO".to_vec());
    let mime_type = reader.guess_mime_type().unwrap();
    assert_eq!(mime_type, FontMimeTypes::OTF);
}

#[test]
fn test_guess_mime_type_ttf() {
    let mut reader = Cursor::new(b"true".to_vec());
    let mime_type = reader.guess_mime_type().unwrap();
    assert_eq!(mime_type, FontMimeTypes::TTF);
}

#[test]
fn test_guess_mime_type_woff() {
    let mut reader = Cursor::new(b"\x77\x4F\x46\x46".to_vec());
    let mime_type = reader.guess_mime_type().unwrap();
    assert_eq!(mime_type, FontMimeTypes::WOFF);
}

#[test]
fn test_guess_mime_type_woff2() {
    let mut reader = Cursor::new(b"\x77\x4F\x46\x32".to_vec());
    let mime_type = reader.guess_mime_type().unwrap();
    assert_eq!(mime_type, FontMimeTypes::WOFF2);
}

#[test]
fn test_guess_mime_type_unknown() {
    let mut reader = Cursor::new(b"unknown".to_vec());
    let result = reader.guess_mime_type();
    assert!(result.is_err());
    assert!(matches!(result.err().unwrap(), MimeTypeError::UnknownMagicType));
}

#[test]
fn guessing_keeps_the_position() {
    let mut reader = Cursor::new(b"xxOTTOyy".to_vec());
    reader.set_position(2);
    assert_eq!(reader.guess_mime_type().unwrap(), FontMimeTypes::OTF);
    assert_eq!(reader.position(), 2);
    assert_eq!(FontMimeTypes::OTF.to_string(), "font/otf");
    assert_eq!(FontMimeTypes::WOFF2.to_string(), "font/woff2");
}

#[test]
fn guessing_a_short_stream_is_an_io_error() {
    let mut reader = Cursor::new(b"OTT".to_vec());
    assert!(matches!(reader.guess_mime_type(), Err(MimeTypeError::IoError(_))));
}
