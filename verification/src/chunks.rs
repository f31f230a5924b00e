//! Chunks of a font file: the spans that a content credential hashes, or
//! leaves out of its hash.

use crate::io::Cursor;
use crate::text::{
    bool_text, decimal, push_bool, push_decimal, string_from_utf8_lossy, utf8_lossy,
};
use crate::utils::string_from_utf8;
use vstd::prelude::*;
use vstd::string::StringExecFns;
use vstd::utf8::{decode_utf8, valid_utf8};

verus! {

/// Reading where the chunks of a font lie.
pub trait ChunkReader {
    /// The error type for reading chunk positions.
    type Error;
    /// The kind of chunk.
    type ChunkType: ChunkTypeTrait;

    /// The positions of all chunks of the font in `reader`.
    fn get_chunk_positions(reader: &mut Cursor) -> Result<
        Vec<ChunkPosition<Self::ChunkType>>,
        Self::Error,
    >;
}

/// A kind of chunk.
pub trait ChunkTypeTrait {
    /// Whether chunks of this kind are hashed.
    spec fn spec_should_hash(&self) -> bool;

    /// The name of the kind.
    spec fn spec_name(&self) -> Seq<char>;

    /// Whether chunks of this kind are hashed.
    fn should_hash(&self) -> (r: bool)
        ensures
            r == self.spec_should_hash(),
    ;

    /// The name of the kind.
    fn to_string(&self) -> (r: String)
        ensures
            r@ == self.spec_name(),
    ;
}

/// The kinds of chunk of a font file.
#[derive(Debug, Clone, Copy, PartialEq, Eq, Structural)]
pub enum ChunkType {
    /// The file header.
    Header,
    /// Table directory entries.
    DirectoryEntry,
    /// Table data.
    TableData,
}

impl ChunkTypeTrait for ChunkType {
    open spec fn spec_should_hash(&self) -> bool {
        true
    }

    open spec fn spec_name(&self) -> Seq<char> {
        match self {
            ChunkType::Header => "Header"@,
            ChunkType::DirectoryEntry => "Directory Entry"@,
            ChunkType::TableData => "Table Data"@,
        }
    }

    /// Chunks of every kind are hashed.
    fn should_hash(&self) -> (r: bool) {
        true
    }

    /// "Header", "Directory Entry" or "Table Data".
    fn to_string(&self) -> (r: String) {
        match self {
            ChunkType::Header => String::from_str("Header"),
            ChunkType::DirectoryEntry => String::from_str("Directory Entry"),
            ChunkType::TableData => String::from_str("Table Data"),
        }
    }
}

/// Where a chunk lies in a file, what it is named and whether it is hashed.
#[derive(Debug, Clone, PartialEq, Eq)]
pub struct ChunkPosition<T> {
    /// Offset to the start of the chunk.
    pub offset: usize,
    /// Length of the chunk.
    pub length: usize,
    /// Name, or tag, of the chunk.
    pub name: [u8; 4],
    /// Kind of chunk.
    pub chunk_type: T,
    /// Whether the chunk is hashed.
    pub should_hash: bool,
}

impl<T: ChunkTypeTrait> ChunkPosition<T> {
    /// Creates a chunk position.
    pub fn new(offset: usize, length: usize, name: [u8; 4], chunk_type: T, should_hash: bool) -> (r:
        Self)
        ensures
            r == (ChunkPosition { offset, length, name, chunk_type, should_hash }),
    {
        Self { offset, length, name, chunk_type, should_hash }
    }

    /// The name as UTF-8 text; fails, giving the bytes back, when it is not
    /// UTF-8.
    pub fn name_as_string(&self) -> (r: Result<String, Vec<u8>>)
        ensures
            match r {
                Ok(s) => valid_utf8(self.name@) && s@ == decode_utf8(self.name@),
                Err(b) => !valid_utf8(self.name@) && b@ == self.name@,
            },
    {
        let bytes = vstd::slice::slice_to_vec(&self.name);
        string_from_utf8(bytes)
    }

    /// The offset of the chunk.
    pub fn offset(&self) -> (r: usize)
        ensures
            r == self.offset,
    {
        self.offset
    }

    /// The length of the chunk.
    pub fn length(&self) -> (r: usize)
        ensures
            r == self.length,
    {
        self.length
    }

    /// The name of the chunk.
    pub fn name(&self) -> (r: &[u8; 4])
        ensures
            *r == self.name,
    {
        &self.name
    }

    /// The kind of the chunk.
    pub fn chunk_type(&self) -> (r: &T)
        ensures
            *r == self.chunk_type,
    {
        &self.chunk_type
    }

    /// Whether the chunk is hashed.
    pub fn should_hash(&self) -> (r: bool)
        ensures
            r == self.should_hash,
    {
        self.should_hash
    }

    /// The text that describes the chunk: "Chunk(kind): name at offset
    /// offset with length length; hash: true|false".
    pub fn to_string(&self) -> (r: String)
        ensures
            r@ == "Chunk("@ + self.chunk_type.spec_name() + "): "@ + utf8_lossy(self.name@)
                + " at offset "@ + decimal(self.offset as nat) + " with length "@ + decimal(
                self.length as nat,
            ) + "; hash: "@ + bool_text(self.should_hash),
    {
        let mut s = String::from_str("Chunk(");
        let kind = self.chunk_type.to_string();
        s.append(kind.as_str());
        s.append("): ");
        let name = string_from_utf8_lossy(&self.name);
        s.append(name.as_str());
        s.append(" at offset ");
        push_decimal(&mut s, self.offset as u64);
        s.append(" with length ");
        push_decimal(&mut s, self.length as u64);
        s.append("; hash: ");
        push_bool(&mut s, self.should_hash);
        s
    }
}

} // verus!
