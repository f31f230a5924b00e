use c2pa_font_handler::chunks::{ChunkPosition, ChunkType, ChunkTypeTrait};

#[test]
fn test_chunk_position() {
    let chunk = ChunkPosition::new(0, 4, *b"head", ChunkType::Header, true);

    assert_eq!(chunk.offset(), 0);
    assert_eq!(chunk.length(), 4);
    assert_eq!(chunk.name(), b"head");
    let name_result = chunk.name_as_string();
    assert!(name_result.is_ok());
    assert_eq!(name_result.unwrap(), "head");
    assert_eq!(chunk.chunk_type(), &ChunkType::Header);
    assert_eq!(chunk.should_hash(), true);
}

#[test]
fn test_chunk_position_display() {
    let chunk = ChunkPosition {
        offset: 0,
        length: 4,
        name: *b"head",
        chunk_type: ChunkType::Header,
        should_hash: true,
    };

    assert_eq!(chunk.to_string(), "Chunk(Header): head at offset 0 with length 4; hash: true");
}

#[test]
fn test_chunk_type_display() {
    assert_eq!(ChunkType::Header.to_string(), "Header");
    assert_eq!(ChunkType::DirectoryEntry.to_string(), "Directory Entry");
    assert_eq!(ChunkType::TableData.to_string(), "Table Data");
}

#[test]
fn chunk_position_display_of_large_numbers() {
    let chunk = ChunkPosition::new(1234567, 890, *b"glyf", ChunkType::TableData, false);
    assert_eq!(
        chunk.to_string(),
        "Chunk(Table Data): glyf at offset 1234567 with length 890; hash: false"
    );
    assert!(ChunkType::TableData.should_hash());
}

#[test]
fn chunk_name_that_is_not_utf8_is_refused() {
    let chunk = ChunkPosition::new(0, 1, [0xff, 0xfe, 0x00, 0x41], ChunkType::Header, true);
    assert_eq!(chunk.name_as_string(), Err(vec![0xff, 0xfe, 0x00, 0x41]));
}
