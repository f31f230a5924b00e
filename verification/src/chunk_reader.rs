//! Chunk positions as plain records: where each part of a font lies, and
//! whether a content credential hashes it.

use crate::error::FontIoError;
use crate::text::{debug_quoted, decimal, push_decimal, string_debug, string_from_utf8_lossy, utf8_lossy};
use crate::utils::string_from_utf8;
use vstd::prelude::*;
use vstd::string::StringExecFns;
use vstd::utf8::{decode_utf8, valid_utf8};

verus! {

/// Reading where the chunks of a font lie.
pub trait ChunkReader {
    /// The error type for reading chunk positions.
    type Error;

    /// The positions of the chunks of the font in `reader`, which the
    /// hashing of a content credential works from.
    fn get_chunk_positions(&self, reader: &mut crate::io::Cursor) -> Result<
        Vec<ChunkPosition>,
        Self::Error,
    >;
}

/// The kinds of chunk of a font.
#[derive(Clone, Copy, PartialEq, Eq, Structural)]
pub enum ChunkType {
    /// The whole-file header.
    Header,
    /// Table directory entry or entries.
    _Directory,
    /// Table data included in the hash.
    TableDataIncluded,
    /// Table data excluded from the hash.
    TableDataExcluded,
}

impl ChunkType {
    /// The name of the kind.
    pub open spec fn spec_name(self) -> Seq<char> {
        match self {
            ChunkType::Header => "Header"@,
            ChunkType::_Directory => "Directory"@,
            ChunkType::TableDataIncluded => "TableDataIncluded"@,
            ChunkType::TableDataExcluded => "TableDataExcluded"@,
        }
    }

    /// The name of the kind: "Header", "Directory", "TableDataIncluded" or
    /// "TableDataExcluded".
    pub fn to_string(&self) -> (r: String)
        ensures
            r@ == self.spec_name(),
    {
        match self {
            ChunkType::Header => String::from_str("Header"),
            ChunkType::_Directory => String::from_str("Directory"),
            ChunkType::TableDataIncluded => String::from_str("TableDataIncluded"),
            ChunkType::TableDataExcluded => String::from_str("TableDataExcluded"),
        }
    }

    /// The debugging text of the kind, which is its name.
    pub fn debug_string(&self) -> (r: String)
        ensures
            r@ == self.spec_name(),
    {
        self.to_string()
    }
}

/// Where a chunk lies in a font, what it is named, and what kind it is.
#[derive(PartialEq, Eq)]
pub struct ChunkPosition {
    /// Offset to the start of the chunk.
    pub offset: usize,
    /// Length of the chunk.
    pub length: usize,
    /// Tag of the chunk.
    pub name: [u8; 4],
    /// Kind of chunk.
    pub chunk_type: ChunkType,
}

impl ChunkPosition {
    /// The name as UTF-8 text; fails when it is not UTF-8.
    pub fn name_as_string(&self) -> (r: Result<String, FontIoError>)
        ensures
            match r {
                Ok(s) => valid_utf8(self.name@) && s@ == decode_utf8(self.name@),
                Err(e) => !valid_utf8(self.name@) && (e matches FontIoError::StringFromUtf8(b)
                    && b@ == self.name@),
            },
    {
        match string_from_utf8(vstd::slice::slice_to_vec(&self.name)) {
            Ok(s) => Ok(s),
            Err(b) => Err(FontIoError::StringFromUtf8(b)),
        }
    }

    /// The text that describes the chunk: "name, offset, length, kind".
    pub fn to_string(&self) -> (r: String)
        ensures
            r@ == utf8_lossy(self.name@) + ", "@ + decimal(self.offset as nat) + ", "@ + decimal(
                self.length as nat,
            ) + ", "@ + self.chunk_type.spec_name(),
    {
        let mut s = string_from_utf8_lossy(&self.name);
        s.append(", ");
        push_decimal(&mut s, self.offset as u64);
        s.append(", ");
        push_decimal(&mut s, self.length as u64);
        s.append(", ");
        let kind = self.chunk_type.to_string();
        s.append(kind.as_str());
        s
    }

    /// The debugging text of the chunk: the name quoted, then the offset,
    /// length and kind.
    pub fn debug_string(&self) -> (r: String)
        ensures
            r@ == debug_quoted(utf8_lossy(self.name@)) + ", "@ + decimal(self.offset as nat) + ", "@
                + decimal(self.length as nat) + ", "@ + self.chunk_type.spec_name(),
    {
        let name = string_from_utf8_lossy(&self.name);
        let mut s = string_debug(name.as_str());
        s.append(", ");
        push_decimal(&mut s, self.offset as u64);
        s.append(", ");
        push_decimal(&mut s, self.length as u64);
        s.append(", ");
        let kind = self.chunk_type.debug_string();
        s.append(kind.as_str());
        s
    }
}

} // verus!
