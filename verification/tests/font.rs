use c2pa_font_handler::c2pa::{
    C2PASupport, ContentCredentialRecord, UpdatableC2PA, UpdateContentCredentialRecord,
};
use c2pa_font_handler::chunks::{ChunkReader, ChunkTypeTrait};
use c2pa_font_handler::error::{FontIoError, FontSaveError};
use c2pa_font_handler::io::Cursor;
use c2pa_font_handler::magic::Magic;
use c2pa_font_handler::sfnt::directory::{SfntDirectory, SfntDirectoryEntry};
use c2pa_font_handler::sfnt::font::{stub_dsig_stream, DsigStubOutcome, SfntChunkType, SfntFont};
use c2pa_font_handler::sfnt::header::SfntHeader;
use c2pa_font_handler::sfnt::table::dsig::TableDSIG;
use c2pa_font_handler::sfnt::table::generic::TableGeneric;
use c2pa_font_handler::sfnt::table::head::TableHead;
use c2pa_font_handler::sfnt::table::named_table::NamedTable;
use c2pa_font_handler::tag::FontTag;
use c2pa_font_handler::{
    Font, FontDSIGStubber, FontDataRead, FontDirectory, FontHeader, FontTable, MutFontDataWrite,
};
use std::collections::BTreeMap;

/// An OpenType font of eleven tables, laid out as the library writes fonts:
/// the 'head' table first, a stub 'DSIG' table, and nine tables of bytes.
fn font_otf() -> Vec<u8> {
    let generic: [(&[u8; 4], usize); 9] = [
        (b"CFF ", 600),
        (b"OS/2", 96),
        (b"cmap", 100),
        (b"gasp", 8),
        (b"hhea", 36),
        (b"hmtx", 40),
        (b"maxp", 6),
        (b"name", 200),
        (b"post", 32),
    ];
    let mut entries = Vec::new();
    let mut tables = BTreeMap::new();
    let head = TableHead {
        majorVersion: 1,
        minorVersion: 0,
        fontRevision: 0x00010000,
        checksumAdjustment: 0,
        magicNumber: 0x5f0f3cf5,
        flags: 3,
        unitsPerEm: 1000,
        created: 0x0000_0000_d5a1_0000,
        modified: 0x0000_0000_d5a1_0001,
        xMin: -50,
        yMin: -200,
        xMax: 900,
        yMax: 800,
        macStyle: 0,
        lowestRecPPEM: 8,
        fontDirectionHint: 2,
        indexToLocFormat: 0,
        glyphDataFormat: 0,
    };
    entries.push(SfntDirectoryEntry { tag: FontTag::head(), checksum: 0, offset: 0, length: 54 });
    tables.insert(FontTag::head().key(), NamedTable::Head(head));
    entries.push(SfntDirectoryEntry { tag: FontTag::dsig(), checksum: 0, offset: 1, length: 8 });
    tables.insert(FontTag::dsig().key(), NamedTable::DSIG(TableDSIG::stub()));
    for (i, (tag, len)) in generic.iter().enumerate() {
        let data: Vec<u8> = (0..*len).map(|k| ((k * 7 + i * 13) % 251) as u8).collect();
        let tag = FontTag::new(**tag);
        entries.push(SfntDirectoryEntry { tag, checksum: 0, offset: 2 + i as u32, length: *len as u32 });
        tables.insert(tag.key(), NamedTable::Generic(TableGeneric { data }));
    }
    let mut font = SfntFont {
        header: SfntHeader {
            sfntVersion: Magic::OpenType,
            numTables: 11,
            searchRange: 0,
            entrySelector: 0,
            rangeShift: 0,
        },
        directory: SfntDirectory::from_entries(entries),
        tables,
    };
    let mut out = Cursor::new(Vec::new());
    font.write(&mut out).unwrap();
    out.into_inner()
}

fn sample_record() -> ContentCredentialRecord {
    ContentCredentialRecord::builder()
        .with_version(0, 1)
        .with_active_manifest_uri("https://example.com".to_string())
        .with_content_credential(vec![0x00, 0x01, 0x02, 0x03])
        .build()
        .unwrap()
}

#[test]
fn test_load_of_font() {
    let font_data = font_otf();
    let mut reader = Cursor::new(font_data);
    let font = SfntFont::from_reader(&mut reader).unwrap();
    assert_eq!(font.header.num_tables(), 11);
    assert_eq!(font.tables.len(), 11);
}

#[test]
fn test_write_font_data_with_zero_tables() {
    let mut font = SfntFont {
        header: SfntHeader::default(),
        directory: SfntDirectory::new(),
        tables: BTreeMap::new(),
    };
    let mut writer = Cursor::new(Vec::new());
    let result = font.write(&mut writer);
    assert!(result.is_err());
    let err = result.err().unwrap();
    assert!(matches!(err, FontIoError::SaveError(FontSaveError::NoTablesFound)));
}

#[test]
fn test_load_font_with_bad_magic() {
    let mut bad_font_data = [0u8; 100];
    bad_font_data[0] = 0xff;
    bad_font_data[1] = 0xff;
    bad_font_data[2] = 0xff;
    bad_font_data[3] = 0xff;
    let mut reader = Cursor::new(bad_font_data.to_vec());
    let result = SfntHeader::from_reader(&mut reader);
    assert!(result.is_err());
    let err = result.err().unwrap();
    assert!(matches!(err, FontIoError::UnknownMagic(_)));
}

#[test]
fn test_load_font_with_wrong_number_of_directory_entries() {
    let mut bad_font_data = [0u8; 12];
    bad_font_data[0] = 0x00;
    bad_font_data[1] = 0x01;
    bad_font_data[2] = 0x00;
    bad_font_data[3] = 0x00;
    bad_font_data[4] = 0x00;
    bad_font_data[5] = 0x01;
    let mut reader = Cursor::new(bad_font_data.to_vec());
    let result = SfntFont::from_reader(&mut reader);
    assert!(result.is_err());
    let err = result.err().unwrap();
    assert!(matches!(err, FontIoError::IoError(_)));
}

#[test]
fn test_font_write() {
    let font_data = font_otf();
    let mut reader = Cursor::new(font_data.clone());
    let mut font = SfntFont::from_reader(&mut reader).unwrap();
    let mut writer = Cursor::new(Vec::new());
    font.write(&mut writer).unwrap();
    let written_data = writer.into_inner();
    assert_eq!(font_data.len(), written_data.len());
    assert_eq!(font_data, written_data);
}

#[test]
fn test_font_write_new_table_added() {
    let font_data = font_otf();
    let mut reader = Cursor::new(font_data);
    let mut font = SfntFont::from_reader(&mut reader).unwrap();
    let mut writer = Cursor::new(Vec::new());
    let new_table = TableGeneric { data: vec![0x00, 0x00, 0x00, 0x01, 0x00, 0x00, 0x00, 0x00] };
    font.tables.insert(FontTag::new(*b"test").key(), NamedTable::Generic(new_table));
    let new_table = TableGeneric { data: vec![0x00, 0x00, 0x00, 0x01, 0x00, 0x00, 0x00, 0x00] };
    font.tables.insert(FontTag::new(*b"te5t").key(), NamedTable::Generic(new_table));
    let result = font.write(&mut writer);
    assert!(result.is_err());
    let err = result.err().unwrap();
    assert!(matches!(err, FontIoError::SaveError(FontSaveError::TooManyTablesAdded)));
}

#[test]
fn test_write_font_without_c2pa() {
    let font_data = font_otf();
    let mut reader = Cursor::new(font_data.clone());
    let mut font = SfntFont::from_reader(&mut reader).unwrap();
    let mut writer = Cursor::new(Vec::new());
    let result = font.write(&mut writer);
    assert!(result.is_ok());
    let written_data = writer.into_inner();
    assert_eq!(font_data.len(), written_data.len());
    assert_eq!(font_data, written_data);
}

#[test]
fn test_write_font_with_c2pa() {
    let font_data = font_otf();
    let mut reader = Cursor::new(font_data);
    let mut font = SfntFont::from_reader(&mut reader).unwrap();
    assert!(!font.has_c2pa());
    font.add_c2pa_record(sample_record()).unwrap();
    let mut writer = Cursor::new(Vec::new());
    let result = font.write(&mut writer);
    assert!(result.is_ok());
    let written_data = writer.into_inner();
    let mut new_reader = Cursor::new(written_data);
    let new_font = SfntFont::from_reader(&mut new_reader).unwrap();
    assert!(new_font.has_c2pa());
    assert_eq!(new_font.tables.len(), font.tables.len());
}

#[test]
fn test_font_write_table_deleted() {
    let font_data = font_otf();
    let mut reader = Cursor::new(font_data);
    let mut font = SfntFont::from_reader(&mut reader).unwrap();
    let mut writer = Cursor::new(Vec::new());
    font.tables.remove(&FontTag::dsig().key());
    font.tables.remove(&FontTag::head().key());
    let result = font.write(&mut writer);
    assert!(result.is_err());
    let err = result.err().unwrap();
    assert!(matches!(err, FontIoError::SaveError(FontSaveError::TooManyTablesRemoved)));
}

#[test]
fn test_font_stub_dsig() {
    let font_data = font_otf();
    let mut reader = Cursor::new(font_data);
    let mut font = SfntFont::from_reader(&mut reader).unwrap();
    let result = font.stub_dsig();
    assert!(result.is_ok());
    let dsig = font.tables.get(&FontTag::dsig().key()).unwrap();
    assert!(matches!(dsig, NamedTable::DSIG(_)));
}

#[test]
fn test_font_stub_dsig_stream_stubbed() {
    let font_data = font_otf();
    let mut reader = Cursor::new(font_data);
    let mut destination = Cursor::new(Vec::new());
    let result = stub_dsig_stream(&mut reader, &mut destination);
    assert!(result.is_ok());
    destination.set_position(0);
    let font = SfntFont::from_reader(&mut destination).unwrap();
    let dsig = font.tables.get(&FontTag::dsig().key()).unwrap();
    assert!(matches!(dsig, NamedTable::DSIG(_)));
    assert_eq!(result.unwrap(), DsigStubOutcome::AlreadyStubbed);
}

#[test]
fn test_font_stub_dsig_stream_present() {
    let font_data = font_otf();
    let mut reader = Cursor::new(font_data);
    let mut font = SfntFont::from_reader(&mut reader).unwrap();
    let dsig_table = NamedTable::DSIG(TableDSIG {
        version: 1,
        numSignatures: 1,
        flags: TableDSIG::DO_NOT_RESIGN,
        data: vec![0x01, 0x02, 0x03, 0x04],
    });
    font.tables.insert(FontTag::dsig().key(), dsig_table);
    let mut reader = Cursor::new(Vec::new());
    font.write(&mut reader).unwrap();
    reader.set_position(0);
    let mut destination = Cursor::new(Vec::new());
    let result = stub_dsig_stream(&mut reader, &mut destination);
    assert!(result.is_ok());
    destination.set_position(0);
    let font = SfntFont::from_reader(&mut destination).unwrap();
    let dsig = font.tables.get(&FontTag::dsig().key()).unwrap();
    assert!(matches!(dsig, NamedTable::DSIG(_)));
    assert_eq!(result.unwrap(), DsigStubOutcome::Stubbed);
}

#[test]
fn test_font_as_font_trait() {
    let font_data = font_otf();
    let mut reader = Cursor::new(font_data);
    let font = SfntFont::from_reader(&mut reader).unwrap();
    assert_eq!(font.header().sfntVersion.value(), 0x4f54544f);
    assert_eq!(11, font.header().num_tables());
    assert_eq!(11, font.directory().entries().len());
    assert!(font.contains_table(&FontTag::new(*b"DSIG")));
    let table = font.table(&FontTag::new(*b"DSIG"));
    assert!(table.is_some());
    let table = table.unwrap();
    assert_eq!(table.len(), 8);
}

#[test]
fn test_adding_c2pa_record() {
    let font_data = font_otf();
    let mut reader = Cursor::new(font_data);
    let mut font = SfntFont::from_reader(&mut reader).unwrap();
    let result = font.add_c2pa_record(sample_record());
    assert!(result.is_ok());
    assert!(font.has_c2pa());
    let result = font.get_c2pa();
    assert!(result.is_ok());
    let record = result.unwrap().unwrap();
    assert_eq!(record.major_version(), 0);
    assert_eq!(record.minor_version(), 1);
    assert_eq!(record.active_manifest_uri().unwrap(), "https://example.com");
    assert_eq!(record.content_credential().unwrap(), &[0x00, 0x01, 0x02, 0x03]);
}

#[test]
fn test_adding_c2pa_record_when_one_exists() {
    let font_data = font_otf();
    let mut reader = Cursor::new(font_data);
    let mut font = SfntFont::from_reader(&mut reader).unwrap();
    let record = sample_record();
    let result = font.add_c2pa_record(record.clone());
    assert!(result.is_ok());
    assert!(font.has_c2pa());
    let result = font.add_c2pa_record(record);
    assert!(result.is_err());
    let err = result.err().unwrap();
    assert!(matches!(err, FontIoError::ContentCredentialAlreadyExists));
}

#[test]
fn test_removing_c2pa_record() {
    let font_data = font_otf();
    let mut reader = Cursor::new(font_data);
    let mut font = SfntFont::from_reader(&mut reader).unwrap();
    let result = font.add_c2pa_record(sample_record());
    assert!(result.is_ok());
    assert!(font.has_c2pa());
    let result = font.remove_c2pa_record();
    assert!(result.is_ok());
    let result = font.get_c2pa();
    assert!(result.is_ok());
    let value = result.unwrap();
    assert!(value.is_none());
}

#[test]
fn test_removing_c2pa_record_when_one_does_not_exists() {
    let font_data = font_otf();
    let mut reader = Cursor::new(font_data);
    let mut font = SfntFont::from_reader(&mut reader).unwrap();
    let result = font.remove_c2pa_record();
    assert!(result.is_err());
    let err = result.err().unwrap();
    assert!(matches!(err, FontIoError::ContentCredentialNotFound));
}

#[test]
fn test_updating_c2pa_record_when_occupied() {
    let font_data = font_otf();
    let mut reader = Cursor::new(font_data);
    let mut font = SfntFont::from_reader(&mut reader).unwrap();
    font.add_c2pa_record(sample_record()).unwrap();
    let update_record = UpdateContentCredentialRecord::builder().without_active_manifest_uri().build();
    let result = font.update_c2pa_record(update_record);
    assert!(result.is_ok());
    assert!(font.has_c2pa());
    let result = font.get_c2pa();
    assert!(result.is_ok());
    let record = result.unwrap().unwrap();
    assert_eq!(record.major_version(), 0);
    assert_eq!(record.minor_version(), 1);
    assert_eq!(record.active_manifest_uri(), None);
    assert_eq!(record.content_credential().unwrap(), &[0x00, 0x01, 0x02, 0x03]);
}

#[test]
fn test_updating_c2pa_record_when_vacant() {
    let font_data = font_otf();
    let mut reader = Cursor::new(font_data);
    let mut font = SfntFont::from_reader(&mut reader).unwrap();
    let update_record = UpdateContentCredentialRecord::builder().without_active_manifest_uri().build();
    let result = font.update_c2pa_record(update_record);
    assert!(result.is_ok());
    assert!(font.has_c2pa());
    let result = font.get_c2pa();
    assert!(result.is_ok());
    let record = result.unwrap().unwrap();
    assert_eq!(record.major_version(), 0);
    assert_eq!(record.minor_version(), 1);
    assert_eq!(record.active_manifest_uri(), None);
    assert_eq!(record.content_credential(), None);
}

#[test]
fn test_sfnt_font_chunk_reader_bad_header() {
    let mut reader = Cursor::new(vec![0u8; 10]);
    let result = SfntFont::get_chunk_positions(&mut reader);
    assert!(result.is_err());
    let err = result.err().unwrap();
    assert!(matches!(err, FontIoError::UnknownMagic(_)));
}

#[test]
fn test_sfnt_font_chunk_reader_bad_directory() {
    let mut reader = Cursor::new(vec![
        0x00, 0x01, 0x00, 0x00, // sfntVersion
        0x00, 0x01, // numTables
        0x00, 0x00, // searchRange
        0x00, 0x00, // entrySelector
        0x00, 0x00, // rangeShift
        0x0b, 0x0a, 0x0d, 0x0d, // tag
    ]);
    let result = SfntFont::get_chunk_positions(&mut reader);
    assert!(result.is_err());
    let err = result.err().unwrap();
    assert!(matches!(err, FontIoError::IoError(_)));
    assert_eq!(err.to_string(), "failed to fill whole buffer");
}

#[test]
fn test_sfnt_font_chunk_reader_valid() {
    let font_bytes = font_otf();
    let mut reader = Cursor::new(font_bytes);
    let result = SfntFont::get_chunk_positions(&mut reader);
    assert!(result.is_ok());
    let mut positions = result.unwrap();
    let header = positions.first().unwrap();
    assert_eq!(header.offset(), 0);
    assert_eq!(header.length(), 188);
    assert_eq!(header.name(), b" HDR");
    assert_eq!(header.chunk_type(), &SfntChunkType::HeaderDirectory);
    assert!(!header.chunk_type().should_hash());
    positions.remove(0);

    let head1 = positions.iter().find(|p| p.name() == b"hea1").unwrap();
    assert_eq!(head1.offset(), 196);
    assert_eq!(head1.length(), 4);
    assert_eq!(head1.chunk_type(), &SfntChunkType::ChecksumAdjustment);
    assert!(!head1.chunk_type().should_hash());

    positions.retain(|p| p.name() != b"hea1");
    for position in positions {
        assert_eq!(position.chunk_type(), &SfntChunkType::TableData);
        assert!(position.chunk_type().should_hash());
    }
}

#[test]
fn test_sfnt_font_chunk_reader_with_c2pa() {
    let font_data = font_otf();
    let mut reader = Cursor::new(font_data);
    let mut font = SfntFont::from_reader(&mut reader).unwrap();
    font.add_c2pa_record(sample_record()).unwrap();
    let mut writer = Cursor::new(Vec::new());
    let result = font.write(&mut writer);
    assert!(result.is_ok());
    let written_data = writer.into_inner();
    let mut new_reader = Cursor::new(written_data);
    let result = SfntFont::get_chunk_positions(&mut new_reader);
    assert!(result.is_ok());
    let positions = result.unwrap();
    let c2pa = positions.iter().find(|p| p.name() == b"C2PA").unwrap();
    assert_eq!(c2pa.offset(), 1388);
    assert_eq!(c2pa.length(), 43);
    assert_eq!(c2pa.chunk_type(), &SfntChunkType::C2paTableData);
    assert!(c2pa.chunk_type().should_hash());
}

#[test]
fn test_sfnt_chunk_type_display() {
    assert_eq!(SfntChunkType::HeaderDirectory.to_string(), "HeaderDirectory");
    assert_eq!(SfntChunkType::TableData.to_string(), "Table Data");
    assert_eq!(SfntChunkType::ChecksumAdjustment.to_string(), "Checksum Adjustment");
    assert_eq!(SfntChunkType::C2paTableData.to_string(), "C2PA Table Data");
}

#[test]
fn written_font_sums_to_the_expected_checksum() {
    let font_data = font_otf();
    assert_eq!(c2pa_font_handler::utils::checksum(&font_data), 0xb1b0afba);
    let mut reader = Cursor::new(font_data);
    let mut font = SfntFont::from_reader(&mut reader).unwrap();
    font.add_c2pa_record(sample_record()).unwrap();
    let mut writer = Cursor::new(Vec::new());
    font.write(&mut writer).unwrap();
    assert_eq!(c2pa_font_handler::utils::checksum(&writer.into_inner()), 0xb1b0afba);
}

#[test]
fn written_header_has_binary_search_fields() {
    let font_data = font_otf();
    let mut reader = Cursor::new(font_data);
    let header = SfntHeader::from_reader(&mut reader).unwrap();
    assert_eq!({ header.numTables }, 11);
    assert_eq!({ header.entrySelector }, 3);
    assert_eq!({ header.searchRange }, 128);
    assert_eq!({ header.rangeShift }, 48);
}

#[test]
fn writing_into_a_full_buffer_fails() {
    let font_data = font_otf();
    let mut reader = Cursor::new(font_data);
    let mut font = SfntFont::from_reader(&mut reader).unwrap();
    let mut writer = Cursor::fixed(vec![0; 100]);
    let err = font.write(&mut writer).err().unwrap();
    assert!(matches!(err, FontIoError::IoError(_) | FontIoError::FailedToWriteTableData(_)));
}

#[test]
fn stub_dsig_stream_of_a_font_without_dsig_copies_it() {
    let font_data = font_otf();
    let mut reader = Cursor::new(font_data);
    let mut font = SfntFont::from_reader(&mut reader).unwrap();
    font.tables.remove(&FontTag::dsig().key());
    let mut stream = Cursor::new(Vec::new());
    font.write(&mut stream).unwrap();
    let bytes = stream.into_inner();
    let mut reader = Cursor::new(bytes.clone());
    let mut destination = Cursor::new(Vec::new());
    let outcome = stub_dsig_stream(&mut reader, &mut destination).unwrap();
    assert_eq!(outcome, DsigStubOutcome::NotPresent);
    assert_eq!(destination.into_inner(), bytes);
}

#[test]
fn removing_the_added_record_restores_the_font() {
    let mut reader = Cursor::new(font_otf());
    let mut font = SfntFont::from_reader(&mut reader).unwrap();
    let before = font.tables.len();
    font.add_c2pa_record(sample_record()).unwrap();
    assert_eq!(font.tables.len(), before + 1);
    font.remove_c2pa_record().unwrap();
    assert_eq!(font.tables.len(), before);
    assert!(!font.has_c2pa());
    assert!(matches!(font.get_c2pa(), Ok(None)));
}

#[test]
fn empty_update_keeps_the_record() {
    let mut reader = Cursor::new(font_otf());
    let mut font = SfntFont::from_reader(&mut reader).unwrap();
    font.add_c2pa_record(sample_record()).unwrap();
    font.update_c2pa_record(UpdateContentCredentialRecord::builder().build()).unwrap();
    let record = font.get_c2pa().unwrap().unwrap();
    assert_eq!(record.active_manifest_uri().unwrap(), "https://example.com");
    assert_eq!(record.content_credential().unwrap(), &[0x00, 0x01, 0x02, 0x03]);
}

#[test]
fn update_of_a_font_without_record_reads_back_the_update() {
    let mut reader = Cursor::new(font_otf());
    let mut font = SfntFont::from_reader(&mut reader).unwrap();
    let update = UpdateContentCredentialRecord::builder()
        .with_active_manifest_uri("https://example.org".to_string())
        .build();
    font.update_c2pa_record(update).unwrap();
    let record = font.get_c2pa().unwrap().unwrap();
    assert_eq!(record.major_version(), 0);
    assert_eq!(record.minor_version(), 1);
    assert_eq!(record.active_manifest_uri().unwrap(), "https://example.org");
    assert!(record.content_credential().is_none());
}

#[test]
fn written_font_reads_back_its_tables() {
    let mut reader = Cursor::new(font_otf());
    let mut font = SfntFont::from_reader(&mut reader).unwrap();
    font.add_c2pa_record(sample_record()).unwrap();
    let mut writer = Cursor::new(Vec::new());
    font.write(&mut writer).unwrap();
    let mut again = Cursor::new(writer.into_inner());
    let read = SfntFont::from_reader(&mut again).unwrap();
    assert_eq!(read.tables.len(), font.tables.len());
    for (key, table) in font.tables.iter() {
        let back = read.tables.get(key).unwrap();
        match (table, back) {
            (NamedTable::Generic(a), NamedTable::Generic(b)) => assert_eq!(a.data, b.data),
            (NamedTable::Head(a), NamedTable::Head(b)) => {
                assert_eq!({ a.magicNumber }, { b.magicNumber });
                assert_eq!({ a.unitsPerEm }, { b.unitsPerEm });
                assert_eq!({ a.created }, { b.created });
            }
            (NamedTable::DSIG(a), NamedTable::DSIG(b)) => {
                assert_eq!({ a.version }, { b.version });
                assert_eq!({ a.flags }, { b.flags });
            }
            (NamedTable::C2PA(a), NamedTable::C2PA(b)) => {
                assert_eq!(a.active_manifest_uri, b.active_manifest_uri);
                assert_eq!(a.manifest_store, b.manifest_store);
            }
            _ => panic!("a table was read back as another kind"),
        }
    }
}

#[test]
fn test_font_stub_dsig_stream_not_present() {
    let font_data = vec![
        0x00, 0x01, 0x00, 0x00, // sfntVersion
        0x00, 0x01, // numTables
        0x00, 0x00, // searchRange
        0x00, 0x00, // entrySelector
        0x00, 0x00, // rangeShift
        // One table directory entry for a non-DSIG table
        0x74, 0x65, 0x73, 0x74, // tag 'test'
        0x00, 0x00, 0x00, 0x40, // offset
        0x00, 0x00, 0x00, 0x04, // comp length
        0x00, 0x00, 0x00, 0x04, // orig length
    ];
    let mut reader = Cursor::new(font_data.clone());
    let mut destination = Cursor::new(Vec::new());

    // Attempt to stub the DSIG table when it is not present
    let result = stub_dsig_stream(&mut reader, &mut destination);
    assert!(result.is_ok());
    assert_eq!(result.unwrap(), DsigStubOutcome::NotPresent);

    // Rewind the destination to read it back
    destination.set_position(0);
    let font = SfntFont::from_reader(&mut destination).unwrap();
    let dsig = font.tables.get(&FontTag::dsig().key());
    assert!(dsig.is_none());
    assert_eq!(destination.into_inner(), font_data);
}

#[test]
fn test_sfnt_font_chunk_reader_tracing() {
    let font_data = font_otf();
    let mut reader = Cursor::new(font_data);
    let mut font = SfntFont::from_reader(&mut reader).unwrap();
    let record = ContentCredentialRecord::builder()
        .with_version(0, 1)
        .with_active_manifest_uri("https://example.com".to_string())
        .with_content_credential(vec![0x00, 0x01, 0x02, 0x03])
        .build()
        .unwrap();
    font.add_c2pa_record(record).unwrap();
    let mut writer = Cursor::new(Vec::new());
    let result = font.write(&mut writer);
    assert!(result.is_ok());
    let written_data = writer.into_inner();
    let mut new_reader = Cursor::new(written_data);
    let positions = SfntFont::get_chunk_positions(&mut new_reader).unwrap();
    // The header and directory.
    assert!(positions.iter().any(|p| p.chunk_type() == &SfntChunkType::HeaderDirectory));
    // The C2PA table.
    assert!(positions.iter().any(|p| p.name() == b"C2PA" && p.chunk_type() == &SfntChunkType::C2paTableData));
    // The 'head' table's checksum adjustment, apart from the rest of it.
    assert!(positions.iter().any(|p| p.chunk_type() == &SfntChunkType::ChecksumAdjustment));
    // The data of the other tables.
    assert!(positions.iter().any(|p| p.chunk_type() == &SfntChunkType::TableData));
}

#[test]
fn rewriting_a_written_font_gives_the_same_bytes() {
    let mut reader = Cursor::new(font_otf());
    let mut font = SfntFont::from_reader(&mut reader).unwrap();
    font.add_c2pa_record(sample_record()).unwrap();
    let mut first = Cursor::new(Vec::new());
    font.write(&mut first).unwrap();
    let written = first.into_inner();
    let mut reader = Cursor::new(written.clone());
    let mut again = SfntFont::from_reader(&mut reader).unwrap();
    let mut second = Cursor::new(Vec::new());
    again.write(&mut second).unwrap();
    assert_eq!(second.into_inner(), written);
}

#[test]
fn rewritten_font_with_a_record_sums_to_the_expected_checksum() {
    let mut reader = Cursor::new(font_otf());
    let mut font = SfntFont::from_reader(&mut reader).unwrap();
    font.add_c2pa_record(sample_record()).unwrap();
    let mut first = Cursor::new(Vec::new());
    font.write(&mut first).unwrap();
    let mut reader = Cursor::new(first.into_inner());
    let mut signed = SfntFont::from_reader(&mut reader).unwrap();
    assert!(signed.has_c2pa());
    let mut second = Cursor::new(Vec::new());
    signed.write(&mut second).unwrap();
    assert_eq!(c2pa_font_handler::utils::checksum(&second.into_inner()), 0xb1b0afba);
}
