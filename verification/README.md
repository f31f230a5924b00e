# c2pa-font-handler

Reading, editing and writing SFNT (TrueType/OpenType) fonts, with support for
C2PA content credentials, proved correct with Verus.

The main use is to read a font and replace its DSIG table with a stub: when a
font is signed with C2PA, its DSIG signature would be invalidated, so it is best
replaced by a minimal one. The library also adds, reads, updates and removes the
C2PA table of a font, and writes fonts whose whole-file checksum is the one that
the OpenType specification expects (for the fonts that the checksum law below
describes).

## Layout

- `src/` is the verified library. Fonts are read from and written to in-memory
  streams (`io::Cursor`), whose abstract state is a byte sequence and a
  position. Every table kind has a reader, a writer and a checksum whose
  contracts are stated over the bytes; `sfnt::font` reads and writes whole
  fonts. The laws that tie the operations together are proof functions:
  - `sfnt::integrity::law_written_font_checksum`: a written font sums to
    `0xB1B0AFBA` when it is `checksum_ready`: its directory names each table
    once and names the 'head' table, which is the only 'head' table, and
    either every table fills whole words or only the table written last (a
    C2PA table, say) ends off a word, within 32-bit offsets;
  - `sfnt::roundtrip::law_read_after_write`: reading the bytes of a written font
    gives back its header, its directory and its tables;
  - `sfnt::roundtrip::law_write_after_read`: writing again, unchanged, a font
    read from bytes that writing wrote gives those bytes back;
  - `sfnt::roundtrip::law_written_layout`: the header, directory entries and
    table placement that writing makes;
  - `sfnt::credentials`: what adding, reading, updating and removing a C2PA
    record do together;
  - the `law_*_roundtrip` functions of the header, directory and table modules:
    reading what was written gives it back.
- `tests/` runs the library on concrete fonts and tables.
- `app/` is ordinary Rust around the library: `std::io` streams, zlib
  compression with flate2, thumbnails rendered with cosmic-text, resvg and
  tiny-skia, and error types that implement `std::error::Error`.
