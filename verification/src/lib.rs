//! Reading, editing and writing SFNT fonts, with support for C2PA records.
//!
//! The main use is to read an SFNT font and stub its DSIG table: when a font
//! is signed with C2PA the DSIG table conflicts and is invalidated, so it is
//! best replaced by a minimal one.

pub mod byte_order;
pub mod c2pa;
pub mod chunk_reader;
pub mod chunks;
pub mod data;
pub mod error;
pub mod io;
pub mod magic;
pub mod mime_type;
pub mod tag;
pub mod text;
pub mod thumbnail;
pub mod woff1;
pub mod utils;

use crate::io::Cursor;
use crate::tag::FontTag;
use vstd::prelude::*;

verus! {

/// Computing a checksum on SFNT data.
pub trait FontDataChecksum {
    /// The checksum of the data.
    spec fn checksum_spec(&self) -> u32;

    /// Computes the checksum of the data.
    fn checksum(&self) -> (r: u32)
        ensures
            r == self.checksum_spec(),
    ;
}

/// Reading SFNT data from a stream, starting at its position.
pub trait FontDataRead: Sized {
    /// The error type for reading the data.
    type Error;

    /// Reads the data from `reader`.
    fn from_reader(reader: &mut Cursor) -> Result<Self, Self::Error>;
}

/// Reading SFNT data of a known size from a known offset of a stream.
pub trait FontDataExactRead: Sized {
    /// The error type for reading the data.
    type Error;

    /// Reads `size` bytes of data from `reader`, starting at `offset`.
    fn from_reader_exact(reader: &mut Cursor, offset: usize, size: usize) -> Result<
        Self,
        Self::Error,
    >;
}

/// Writing SFNT data to a stream.
pub trait FontDataWrite {
    /// The error type for writing the data.
    type Error;

    /// The bytes that the data is written as.
    spec fn bytes_spec(&self) -> Seq<u8>;

    /// Writes the data to `dest` at its position.
    fn write(&self, dest: &mut Cursor) -> (r: Result<(), Self::Error>)
        ensures
            final(dest)@ == old(dest)@.after_write(self.bytes_spec()),
            r is Ok <==> old(dest)@.write_ok(self.bytes_spec()),
    ;
}

/// Writing SFNT data to a stream, with the ability to update the data first.
pub trait MutFontDataWrite {
    /// The error type for writing the data.
    type Error;

    /// What writing the data asks of it and of the stream in state `dest`.
    spec fn write_requires(&self, dest: crate::io::StreamState) -> bool;

    /// Writes the data to `dest`.
    fn write(&mut self, dest: &mut Cursor) -> Result<(), Self::Error>
        requires
            old(self).write_requires(old(dest)@),
    ;
}

/// A font header.
pub trait FontHeader: FontDataRead + FontDataChecksum + FontDataWrite {
    /// Returns the number of tables in the font.
    fn num_tables(&self) -> u16;
}

/// A directory entry in a font directory.
pub trait FontDirectoryEntry: FontDataRead + FontDataChecksum + FontDataWrite {

}

/// A directory in a font.
pub trait FontDirectory: FontDataExactRead + FontDataChecksum + FontDataWrite {
    /// The type of entry in the directory.
    type Entry: FontDirectoryEntry;

    /// Reads a directory of `entry_count` entries from `reader`.
    fn from_reader_with_count(reader: &mut Cursor, entry_count: usize) -> Result<
        Self,
        <Self as FontDataExactRead>::Error,
    >;

    /// The entries of the directory.
    fn entries(&self) -> &[Self::Entry];

    /// The entries of the directory in increasing order of their offsets.
    fn physical_order(&self) -> Vec<&Self::Entry>;
}

/// A table in a font.
pub trait FontTable: FontDataChecksum + FontDataWrite {
    /// The length of the table.
    spec fn len_spec(&self) -> u32;

    /// Returns the length of the table.
    fn len(&self) -> (r: u32)
        ensures
            r == self.len_spec(),
    ;

    /// Returns whether the table is empty.
    fn is_empty(&self) -> (r: bool)
        ensures
            r == (self.len_spec() == 0),
    {
        self.len() == 0
    }
}

/// A font.
pub trait Font: FontDataRead + MutFontDataWrite {
    /// The header type of the font.
    type Header: FontHeader;
    /// The directory type of the font.
    type Directory: FontDirectory;
    /// The table type of the font.
    type Table: FontTable;

    /// Whether the font contains a table with the given tag.
    fn contains_table(&self, tag: &FontTag) -> bool;

    /// The table with the given tag.
    fn table(&self, tag: &FontTag) -> Option<&Self::Table>;

    /// The font header.
    fn header(&self) -> &Self::Header;

    /// The font directory.
    fn directory(&self) -> &Self::Directory;
}

/// Stubbing the DSIG table of a font: replacing it with a minimal valid one.
pub trait FontDSIGStubber {
    /// The error type for stubbing the DSIG table.
    type Error;

    /// Stubs the DSIG table of the font.
    fn stub_dsig(&mut self) -> Result<(), Self::Error>;
}

} // verus!
pub mod sfnt;
pub mod sort;
