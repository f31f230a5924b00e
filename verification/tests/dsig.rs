use c2pa_font_handler::error::FontIoError;
use c2pa_font_handler::io::Cursor;
use c2pa_font_handler::sfnt::table::dsig::TableDSIG;
use c2pa_font_handler::tag::FontTag;
use c2pa_font_handler::{FontDataChecksum, FontDataExactRead, FontDataWrite, FontTable};

#[test]
fn test_stub_dsig() {
    let stub = TableDSIG::stub();
    assert_eq!(stub.version, 1);
    assert_eq!(stub.numSignatures, 0);
    assert_eq!(stub.flags, 1);
}

#[test]
fn test_table_dsig_read() {
    let mut reader = Cursor::new(vec![
        0x00, 0x00, 0x00, 0x01, // version
        0x00, 0x00, // numSignatures
        0x00, 0x00, // flags
    ]);
    let result = TableDSIG::from_reader_exact(&mut reader, 0, 8);
    assert!(result.is_ok());
    let dsig = result.unwrap();
    assert_eq!(dsig.version, 1);
    assert_eq!(dsig.numSignatures, 0);
    assert_eq!(dsig.flags, 0);
}

#[test]
fn test_table_dsig_read_exact() {
    let mut reader = Cursor::new(vec![
        0x00, 0x00, 0x00, 0x01, // version
        0x00, 0x00, // numSignatures
        0x00, 0x00, // flags
    ]);
    let result = TableDSIG::from_reader_exact(&mut reader, 0, 8);
    assert!(result.is_ok());
    let dsig = result.unwrap();
    assert_eq!(dsig.version, 1);
    assert_eq!(dsig.numSignatures, 0);
    assert_eq!(dsig.flags, 0);
}

#[test]
fn test_table_dsig_read_exact_with_bad_size() {
    let mut reader = Cursor::new(vec![
        0x00, 0x00, 0x00, 0x01, // version
        0x00, 0x00, // numSignatures
        0x00, 0x00, // flags
    ]);
    let result = TableDSIG::from_reader_exact(&mut reader, 0, 7);
    assert!(result.is_err());
    let err = result.err().unwrap();
    assert!(matches!(
        err,
        FontIoError::LoadTableTruncated(t) if t == FontTag::dsig()
    ));
}

#[test]
fn test_table_dsig_read_exact_with_invalid_sized_buffer() {
    let mut reader = Cursor::new(vec![0; 7]);
    let result = TableDSIG::from_reader_exact(&mut reader, 0, 8);
    assert!(result.is_err());
    let err = result.err().unwrap();
    assert!(matches!(err, FontIoError::IoError(_)));
    assert_eq!(err.to_string(), "failed to fill whole buffer");
}

#[test]
fn test_table_dsig_write() {
    let dsig = TableDSIG {
        version: 1,
        numSignatures: 0,
        flags: 0,
        data: vec![],
    };
    let mut buffer = Cursor::new(Vec::new());
    dsig.write(&mut buffer).unwrap();
    assert_eq!(
        buffer.into_inner(),
        vec![
            0x00, 0x00, 0x00, 0x01, // version
            0x00, 0x00, // numSignatures
            0x00, 0x00, // flags
        ]
    );
}

#[test]
fn test_table_dsig_write_with_too_small_buffer() {
    let dsig = TableDSIG {
        version: 1,
        numSignatures: 0,
        flags: 0,
        data: vec![],
    };
    let mut cursor = Cursor::fixed(vec![0; 7]);
    let result = dsig.write(&mut cursor);
    assert!(result.is_err());
    let err = result.err().unwrap();
    assert!(matches!(err, FontIoError::IoError(_)));
    assert_eq!(err.to_string(), "failed to write whole buffer");
}

#[test]
fn test_table_dsig_checksum() {
    let dsig = TableDSIG {
        version: 1,
        numSignatures: 0x12,
        flags: 0x87,
        data: vec![],
    };
    let checksum = dsig.checksum();
    assert_eq!(checksum, (0x00000001 + 0x00120087));
}

#[test]
fn test_table_dsig_length() {
    let dsig = TableDSIG {
        version: 1,
        numSignatures: 0x12,
        flags: 0x87,
        data: vec![],
    };
    assert_eq!(dsig.len(), 8);
}

#[test]
fn dsig_stub_is_stubbed_and_written_as_eight_bytes() {
    let stub = TableDSIG::stub();
    assert!(stub.is_stubbed());
    let mut out = Cursor::new(Vec::new());
    stub.write(&mut out).unwrap();
    assert_eq!(out.into_inner(), vec![0, 0, 0, 1, 0, 0, 0, 1]);
    assert_eq!(stub.checksum(), 0x00000001 + 0x00000001);
}

#[test]
fn dsig_read_keeps_the_rest_of_the_table() {
    let mut reader = Cursor::new(vec![0, 0, 0, 1, 0, 1, 0, 0, 9, 8, 7, 6, 5]);
    let dsig = TableDSIG::from_reader_exact(&mut reader, 0, 12).unwrap();
    assert_eq!(dsig.numSignatures, 1);
    assert_eq!(dsig.data, vec![9, 8, 7, 6]);
    assert!(!dsig.is_stubbed());
}

#[test]
fn dsig_write_then_read_gives_the_fields_back() {
    let dsig = TableDSIG { version: 0x00010002, numSignatures: 3, flags: 0x8001, data: vec![] };
    let mut buffer = Cursor::new(Vec::new());
    dsig.write(&mut buffer).unwrap();
    let mut reader = Cursor::new(buffer.into_inner());
    let read = TableDSIG::from_reader_exact(&mut reader, 0, 8).unwrap();
    assert_eq!(read.version, 0x00010002);
    assert_eq!(read.numSignatures, 3);
    assert_eq!(read.flags, 0x8001);
    assert!(read.data.is_empty());
}
