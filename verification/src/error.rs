//! Errors related to font I/O.

use crate::io::IoErrorKind;
use crate::tag::FontTag;
use crate::text::{decimal, push_decimal, string_from_utf8_lossy, utf8_lossy};
use vstd::prelude::*;
use vstd::string::StringExecFns;

verus! {

/// Errors related to font I/O.
#[derive(Debug)]
pub enum FontIoError {
    /// A content credential already exists.
    ContentCredentialAlreadyExists,
    /// No content credential record was found.
    ContentCredentialNotFound,
    /// Writing the font data failed.
    FailedToWriteFontData(IoErrorKind),
    /// Writing the data of a font table failed.
    FailedToWriteTableData(IoErrorKind),
    /// Reading or writing a stream failed.
    IoError(IoErrorKind),
    /// An invalid (or unsupported) major C2PA version.
    InvalidC2paMajorVersion(u16),
    /// An invalid (or unsupported) minor C2PA version.
    InvalidC2paMinorVersion(u16),
    /// The magic number in the 'head' table is invalid.
    InvalidHeadMagicNumber(u32),
    /// The size asked for when reading a table directory entry is invalid.
    InvalidSizeForDirectoryEntry {
        /// The size of an entry.
        expected: usize,
        /// The size that was asked for.
        got: usize,
    },
    /// The size asked for when reading a directory is not a whole number of
    /// entries.
    InvalidSizeForDirectory(usize),
    /// The size asked for when reading a header is not that of a header.
    InvalidSizeForHeader(usize),
    /// The size asked for when reading a tag is not four bytes.
    InvalidSizeForTAG(usize),
    /// The font table is truncated.
    LoadTableTruncated(FontTag),
    /// Saving the font failed.
    SaveError(FontSaveError),
    /// Bytes that should hold UTF-8 text do not; they are carried here.
    StringFromUtf8(Vec<u8>),
    /// The magic number that names the font format was not recognized.
    UnknownMagic(u32),
}

/// Errors related to saving a font.
#[derive(Debug)]
pub enum FontSaveError {
    /// The font has no tables.
    NoTablesFound,
    /// More than one table was added to the font.
    TooManyTablesAdded,
    /// More than one table was removed from the font.
    TooManyTablesRemoved,
    /// An unexpected table was encountered.
    UnexpectedTable(String),
    /// The font has more tables, or more table data, than the offsets of an
    /// SFNT file can address.
    FontTooLarge,
}

/// What `Utf8Error`'s `Display` makes of the first invalid sequence of the
/// bytes.
pub uninterp spec fn utf8_error_text(bytes: Seq<u8>) -> Seq<char>;

/// Formats the error that `std::str::from_utf8` finds in the bytes, as its
/// `Display` shows it; empty for valid UTF-8. The claim is only that the
/// text depends on the bytes alone.
#[verifier::external_body]
fn utf8_error_string(bytes: &[u8]) -> (r: String)
    ensures
        r@ == utf8_error_text(bytes@),
{
    match std::str::from_utf8(bytes) {
        Ok(_) => String::new(),
        Err(e) => e.to_string(),
    }
}

impl FontSaveError {
    /// The message of the error.
    pub open spec fn spec_message(&self) -> Seq<char> {
        match self {
            FontSaveError::NoTablesFound => "No tables were found in the font."@,
            FontSaveError::TooManyTablesAdded =>
                "Too many tables were added to the font, which is currently not supported."@,
            FontSaveError::TooManyTablesRemoved =>
                "Too many tables were removed from the font, which is currently not supported."@,
            FontSaveError::UnexpectedTable(name) => "An unexpected table was encountered: "@
                + name@,
            FontSaveError::FontTooLarge =>
                "The font has more tables, or more table data, than an SFNT file can address."@,
        }
    }

    /// The message of the error.
    pub fn to_string(&self) -> (r: String)
        ensures
            r@ == self.spec_message(),
    {
        match self {
            FontSaveError::NoTablesFound => String::from_str("No tables were found in the font."),
            FontSaveError::TooManyTablesAdded => String::from_str(
                "Too many tables were added to the font, which is currently not supported.",
            ),
            FontSaveError::TooManyTablesRemoved => String::from_str(
                "Too many tables were removed from the font, which is currently not supported.",
            ),
            FontSaveError::UnexpectedTable(name) => {
                let mut s = String::from_str("An unexpected table was encountered: ");
                s.append(name.as_str());
                s
            },
            FontSaveError::FontTooLarge => String::from_str(
                "The font has more tables, or more table data, than an SFNT file can address.",
            ),
        }
    }
}

impl FontIoError {
    /// The message of the error.
    pub open spec fn spec_message(&self) -> Seq<char> {
        match self {
            FontIoError::ContentCredentialAlreadyExists => "A content credential already exists"@,
            FontIoError::ContentCredentialNotFound => "A content credential was not found"@,
            FontIoError::FailedToWriteFontData(_) => "Failed to write font data"@,
            FontIoError::FailedToWriteTableData(_) => "Failed to write font table data"@,
            FontIoError::IoError(k) => k.spec_message(),
            FontIoError::InvalidC2paMajorVersion(_) =>
                "Invalid major version specified for a valid C2PA record"@,
            FontIoError::InvalidC2paMinorVersion(_) =>
                "Invalid minor version specified for a valid C2PA record"@,
            FontIoError::InvalidHeadMagicNumber(n) =>
                "Invalid magic number in the 'head' table; expected 0x5f0f3cf5, got "@ + decimal(
                    *n as nat,
                ),
            FontIoError::InvalidSizeForDirectoryEntry { expected, got } =>
                "Invalid size for a table directory entry record, expected "@ + decimal(
                    *expected as nat,
                ) + " bytes, got "@ + decimal(*got as nat),
            FontIoError::InvalidSizeForDirectory(n) =>
                "Invalid size for a table directory entry record, expected a 4-byte aligned request, got "@
                    + decimal(*n as nat),
            FontIoError::InvalidSizeForHeader(n) => "Invalid size for a header, expected 12 bytes, got "@
                + decimal(*n as nat),
            FontIoError::InvalidSizeForTAG(n) => "Invalid size for a tag, expected 4 bytes, got "@
                + decimal(*n as nat),
            FontIoError::LoadTableTruncated(tag) => "The font table is truncated: "@ + utf8_lossy(
                tag@,
            ),
            FontIoError::SaveError(e) => "Error saving the font: "@ + e.spec_message(),
            FontIoError::StringFromUtf8(b) =>
                "Error occurred while generating a string from UTF-8 bytes: "@ + utf8_error_text(
                    b@,
                ),
            FontIoError::UnknownMagic(n) => "An unknown magic number was encountered: "@ + decimal(
                *n as nat,
            ),
        }
    }

    /// The message of the error.
    pub fn to_string(&self) -> (r: String)
        ensures
            r@ == self.spec_message(),
    {
        match self {
            FontIoError::ContentCredentialAlreadyExists => String::from_str(
                "A content credential already exists",
            ),
            FontIoError::ContentCredentialNotFound => String::from_str(
                "A content credential was not found",
            ),
            FontIoError::FailedToWriteFontData(_) => String::from_str("Failed to write font data"),
            FontIoError::FailedToWriteTableData(_) => String::from_str(
                "Failed to write font table data",
            ),
            FontIoError::IoError(k) => String::from_str(k.message()),
            FontIoError::InvalidC2paMajorVersion(_) => String::from_str(
                "Invalid major version specified for a valid C2PA record",
            ),
            FontIoError::InvalidC2paMinorVersion(_) => String::from_str(
                "Invalid minor version specified for a valid C2PA record",
            ),
            FontIoError::InvalidHeadMagicNumber(n) => {
                let mut s = String::from_str(
                    "Invalid magic number in the 'head' table; expected 0x5f0f3cf5, got ",
                );
                push_decimal(&mut s, *n as u64);
                s
            },
            FontIoError::InvalidSizeForDirectoryEntry { expected, got } => {
                let mut s = String::from_str(
                    "Invalid size for a table directory entry record, expected ",
                );
                push_decimal(&mut s, *expected as u64);
                s.append(" bytes, got ");
                push_decimal(&mut s, *got as u64);
                s
            },
            FontIoError::InvalidSizeForDirectory(n) => {
                let mut s = String::from_str(
                    "Invalid size for a table directory entry record, expected a 4-byte aligned request, got ",
                );
                push_decimal(&mut s, *n as u64);
                s
            },
            FontIoError::InvalidSizeForHeader(n) => {
                let mut s = String::from_str("Invalid size for a header, expected 12 bytes, got ");
                push_decimal(&mut s, *n as u64);
                s
            },
            FontIoError::InvalidSizeForTAG(n) => {
                let mut s = String::from_str("Invalid size for a tag, expected 4 bytes, got ");
                push_decimal(&mut s, *n as u64);
                s
            },
            FontIoError::LoadTableTruncated(tag) => {
                let mut s = String::from_str("The font table is truncated: ");
                let name = string_from_utf8_lossy(&tag.data);
                s.append(name.as_str());
                s
            },
            FontIoError::SaveError(e) => {
                let mut s = String::from_str("Error saving the font: ");
                let inner = e.to_string();
                s.append(inner.as_str());
                s
            },
            FontIoError::StringFromUtf8(b) => {
                let mut s = String::from_str(
                    "Error occurred while generating a string from UTF-8 bytes: ",
                );
                let detail = utf8_error_string(b.as_slice());
                s.append(detail.as_str());
                s
            },
            FontIoError::UnknownMagic(n) => {
                let mut s = String::from_str("An unknown magic number was encountered: ");
                push_decimal(&mut s, *n as u64);
                s
            },
        }
    }
}

} // verus!
