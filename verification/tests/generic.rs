use c2pa_font_handler::error::FontIoError;
use c2pa_font_handler::io::Cursor;
use c2pa_font_handler::sfnt::table::generic::TableGeneric;
use c2pa_font_handler::{FontDataChecksum, FontDataExactRead, FontDataWrite, FontTable};

#[test]
fn test_table_generic_read_exact() {
    let mut reader = Cursor::new(vec![
        0x00, 0x00, 0x00, 0x01, // version
        0x00, 0x00, // numSignatures
        0x00, 0x00, // flags
    ]);
    let result = TableGeneric::from_reader_exact(&mut reader, 0, 8);
    assert!(result.is_ok());
    let generic = result.unwrap();
    assert_eq!(
        generic.data,
        vec![0x00, 0x00, 0x00, 0x01, 0x00, 0x00, 0x00, 0x00]
    );
}

#[test]
fn generic_test_test_reader_exact_with_invalid_sized_buffer() {
    let mut reader = Cursor::new(vec![0; 7]);
    let result = TableGeneric::from_reader_exact(&mut reader, 0, 8);
    assert!(result.is_err());
    let err = result.err().unwrap();
    assert!(matches!(err, FontIoError::IoError(_)));
    assert_eq!(err.to_string(), "failed to fill whole buffer");
}

#[test]
fn test_table_generic_len() {
    let generic = TableGeneric {
        data: vec![0x00, 0x00, 0x00, 0x01, 0x00, 0x00, 0x00, 0x00],
    };
    assert_eq!(generic.len(), 8);
}

#[test]
fn test_table_generic_checksum() {
    let generic = TableGeneric {
        data: vec![0x00, 0x00, 0x00, 0x01, 0x00, 0x00, 0x00, 0x00],
    };
    assert_eq!(generic.checksum(), (0x00000001));
}

#[test]
fn test_table_generic_write() {
    let generic = TableGeneric {
        data: vec![0x00, 0x00, 0x00, 0x01, 0x00, 0x00, 0x00, 0x00],
    };
    let mut buffer = Cursor::new(Vec::new());
    generic.write(&mut buffer).unwrap();
    assert_eq!(buffer.into_inner(), vec![0x00, 0x00, 0x00, 0x01, 0x00, 0x00, 0x00, 0x00]);
}

#[test]
fn test_table_generic_write_with_4_byte_alignment() {
    // Create table with 5 bytes, which should be padded to 8 bytes
    let generic = TableGeneric {
        data: vec![0x00, 0x00, 0x00, 0x01, 0x00],
    };
    let mut buffer = Cursor::new(Vec::new());
    generic.write(&mut buffer).unwrap();
    assert_eq!(buffer.into_inner(), vec![0x00, 0x00, 0x00, 0x01, 0x00, 0x00, 0x00, 0x00]);
}
#[test]
fn test_table_generic_write_with_bad_buffer_size() {
    let generic = TableGeneric {
        data: vec![0x00, 0x00, 0x00, 0x01, 0x00, 0x00, 0x00, 0x00],
    };
    let mut cursor = Cursor::fixed(vec![0; 7]);
    let result = generic.write(&mut cursor);
    assert!(result.is_err());
    let err = result.err().unwrap();
    assert!(matches!(err, FontIoError::FailedToWriteTableData(_)));
}

#[test]
fn test_table_generic_write_with_bad_buffer_size_and_padding() {
    let generic = TableGeneric {
        data: vec![0x00, 0x00, 0x00, 0x01, 0x00],
    };
    let mut cursor = Cursor::fixed(vec![0; 4]);
    let result = generic.write(&mut cursor);
    assert!(result.is_err());
    let err = result.err().unwrap();
    assert!(matches!(err, FontIoError::FailedToWriteTableData(_)));
}

#[test]
fn generic_checksum_is_checksum_of_written_bytes() {
    let generic = TableGeneric { data: vec![1, 2, 3, 4, 5, 6] };
    let mut buffer = Cursor::new(Vec::new());
    generic.write(&mut buffer).unwrap();
    let bytes = buffer.into_inner();
    assert_eq!(bytes, vec![1, 2, 3, 4, 5, 6, 0, 0]);
    assert_eq!(generic.checksum(), c2pa_font_handler::utils::checksum(&bytes));
    assert_eq!(generic.checksum(), 0x01020304 + 0x05060000);
}

#[test]
fn generic_write_then_read_gives_the_data_back() {
    let table = TableGeneric { data: vec![9, 8, 7, 6, 5] };
    let mut buffer = Cursor::new(Vec::new());
    table.write(&mut buffer).unwrap();
    let mut reader = Cursor::new(buffer.into_inner());
    let read = TableGeneric::from_reader_exact(&mut reader, 0, 5).unwrap();
    assert_eq!(read.data, vec![9, 8, 7, 6, 5]);
}
