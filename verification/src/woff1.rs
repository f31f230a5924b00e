//! Traits of WOFF 1.0 fonts.

use crate::FontDirectoryEntry;
use vstd::prelude::*;

verus! {

/// A directory entry of a WOFF font.
pub trait WoffDirectoryEntry: FontDirectoryEntry {
    /// Whether the table is compressed.
    fn is_compressed(&self) -> bool;
}

/// The metadata of a WOFF font.
pub trait WoffMetadata {
    /// The uncompressed metadata section of the font, if it has one.
    fn metadata(&self) -> Option<Vec<u8>>;
}

} // verus!
