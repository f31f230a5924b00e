use c2pa_font_handler::error::FontIoError;
use c2pa_font_handler::io::Cursor;
use c2pa_font_handler::magic::Magic;
use c2pa_font_handler::sfnt::header::SfntHeader;
use c2pa_font_handler::{FontDataChecksum, FontDataExactRead, FontDataRead, FontDataWrite, FontHeader};

#[test]
fn test_sfnt_header_default() {
    let header = SfntHeader::default();
    assert_eq!(header.sfntVersion.value(), 0x00010000);
    assert_eq!({ header.numTables }, 0);
    assert_eq!({ header.searchRange }, 0);
    assert_eq!({ header.entrySelector }, 0);
    assert_eq!({ header.rangeShift }, 0);
}

#[test]
fn test_sfnt_header_read_exact() {
    let mut reader = Cursor::new(vec![
        0x00, 0x01, 0x00, 0x00, // sfntVersion
        0x00, 0x00, // numTables
        0x00, 0x00, // searchRange
        0x00, 0x00, // entrySelector
        0x00, 0x00, // rangeShift
    ]);
    let result = SfntHeader::from_reader_exact(&mut reader, 0, 12);
    assert!(result.is_ok());
    let header = result.unwrap();
    assert_eq!(header.sfntVersion.value(), 0x00010000);
    assert_eq!({ header.numTables }, 0);
    assert_eq!({ header.searchRange }, 0);
    assert_eq!({ header.entrySelector }, 0);
    assert_eq!({ header.rangeShift }, 0);
}

#[test]
fn test_sfnt_header_read_exact_with_bad_size() {
    let mut reader = Cursor::new(vec![
        0x00, 0x01, 0x00, 0x00, // sfntVersion
        0x00, 0x00, // numTables
        0x00, 0x00, // searchRange
        0x00, 0x00, // entrySelector
        0x00, 0x00, // rangeShift
    ]);
    let result = SfntHeader::from_reader_exact(&mut reader, 0, 11);
    assert!(result.is_err());
    let err = result.err().unwrap();
    assert!(matches!(err, FontIoError::InvalidSizeForHeader(11)));
}

#[test]
fn test_sfnt_header_read_exact_too_small_buffer() {
    let mut reader = Cursor::new(vec![
        0x00, 0x01, 0x00, 0x00, // sfntVersion
        0x00, 0x00, // numTables
        0x00, 0x00, // searchRange
        0x00, 0x00, // entrySelector, missing rangeShift
    ]);
    let result = SfntHeader::from_reader_exact(&mut reader, 0, 12);
    assert!(result.is_err());
    let err = result.err().unwrap();
    assert!(matches!(err, FontIoError::IoError(_)));
    assert_eq!(err.to_string(), "failed to fill whole buffer");
}

#[test]
fn test_sfnt_header_read_exact_with_invalid_magic() {
    let mut reader = Cursor::new(vec![
        0x00, 0x00, 0x00, 0x00, // sfntVersion - INVALID magic
        0x00, 0x00, // numTables
        0x00, 0x00, // searchRange
        0x00, 0x00, // entrySelector
        0x00, 0x00, // rangeShift
    ]);
    let result = SfntHeader::from_reader_exact(&mut reader, 1, 12);
    assert!(result.is_err());
    let err = result.err().unwrap();
    assert!(matches!(err, FontIoError::UnknownMagic(0x00000000)));
}

#[test]
fn test_sfnt_header_write() {
    let header = SfntHeader {
        sfntVersion: Magic::TrueType,
        numTables: 0,
        searchRange: 0,
        entrySelector: 0,
        rangeShift: 0,
    };
    let mut buffer = Cursor::new(Vec::new());
    header.write(&mut buffer).unwrap();
    assert_eq!(
        buffer.into_inner(),
        vec![
            0x00, 0x01, 0x00, 0x00, // sfntVersion
            0x00, 0x00, // numTables
            0x00, 0x00, // searchRange
            0x00, 0x00, // entrySelector
            0x00, 0x00, // rangeShift
        ]
    );
}

#[test]
fn test_sfnt_header_with_too_small_buffer() {
    let header = SfntHeader {
        sfntVersion: Magic::TrueType,
        numTables: 0,
        searchRange: 0,
        entrySelector: 0,
        rangeShift: 0,
    };
    let mut cursor = Cursor::fixed(vec![0; 11]);
    let result = header.write(&mut cursor);
    assert!(result.is_err());
    let err = result.err().unwrap();
    assert!(matches!(err, FontIoError::IoError(_)));
    assert_eq!(err.to_string(), "failed to write whole buffer");
}

#[test]
fn test_sfnt_header_checksum() {
    let header = SfntHeader {
        sfntVersion: Magic::TrueType,
        numTables: 3,
        searchRange: 4,
        entrySelector: 9,
        rangeShift: 9,
    };
    assert_eq!(header.checksum(), 0x00010000u32 + 0x00030004u32 + 0x00090009u32);
}

#[test]
fn test_sfnt_header_num_tables() {
    let header = SfntHeader {
        sfntVersion: Magic::TrueType,
        numTables: 3,
        searchRange: 4,
        entrySelector: 9,
        rangeShift: 9,
    };
    assert_eq!(header.num_tables(), 3);
}

#[test]
fn header_write_then_read_gives_it_back() {
    let header = SfntHeader {
        sfntVersion: Magic::OpenType,
        numTables: 11,
        searchRange: 128,
        entrySelector: 3,
        rangeShift: 48,
    };
    let mut buffer = Cursor::new(Vec::new());
    header.write(&mut buffer).unwrap();
    buffer.set_position(0);
    let back = SfntHeader::from_reader(&mut buffer).unwrap();
    assert_eq!(back.sfntVersion.value(), 0x4f54544f);
    assert_eq!({ back.numTables }, 11);
    assert_eq!({ back.searchRange }, 128);
    assert_eq!({ back.entrySelector }, 3);
    assert_eq!({ back.rangeShift }, 48);
}

#[test]
fn header_error_messages() {
    assert_eq!(
        FontIoError::InvalidSizeForHeader(11).to_string(),
        "Invalid size for a header, expected 12 bytes, got 11"
    );
    assert_eq!(
        FontIoError::UnknownMagic(305419896).to_string(),
        "An unknown magic number was encountered: 305419896"
    );
}
