//! A font table of any kind, named by its tag.

use crate::error::FontIoError;
use crate::io::{Cursor, IoErrorKind, StreamState};
use crate::sfnt::table::c2pa::TableC2PA;
use crate::sfnt::table::dsig::TableDSIG;
use crate::sfnt::table::generic::TableGeneric;
use crate::sfnt::table::head::TableHead;
use crate::tag::{c2pa_tag_bytes, dsig_tag_bytes, head_tag_bytes, FontTag};
use crate::{FontDataChecksum, FontDataExactRead, FontDataWrite, FontTable};
use vstd::prelude::*;

verus! {

/// A table of a font: the kinds that the library knows, and the others as
/// bytes.
#[derive(Debug)]
pub enum NamedTable {
    /// A 'DSIG' table.
    DSIG(TableDSIG),
    /// A 'head' table.
    Head(TableHead),
    /// A 'C2PA' table.
    C2PA(TableC2PA),
    /// A table of any other kind.
    Generic(TableGeneric),
}

impl NamedTable {
    /// What reading the table tagged `tag`, of `size` bytes at `offset` of a
    /// stream in state `s`, gives: the tag decides how the table is read.
    pub open spec fn read_exact_result(
        tag: FontTag,
        s: StreamState,
        offset: usize,
        size: usize,
        r: Result<NamedTable, FontIoError>,
    ) -> bool {
        if tag@ == dsig_tag_bytes() {
            match r {
                Ok(NamedTable::DSIG(t)) => TableDSIG::read_exact_result(s, offset, size, Ok(t)),
                Ok(_) => false,
                Err(e) => TableDSIG::read_exact_result(s, offset, size, Err(e)),
            }
        } else if tag@ == head_tag_bytes() {
            match r {
                Ok(NamedTable::Head(t)) => TableHead::read_exact_result(s, offset, size, Ok(t)),
                Ok(_) => false,
                Err(e) => TableHead::read_exact_result(s, offset, size, Err(e)),
            }
        } else if tag@ == c2pa_tag_bytes() {
            match r {
                Ok(NamedTable::C2PA(t)) => TableC2PA::read_exact_result(s, offset, size, Ok(t)),
                Ok(_) => false,
                Err(e) => TableC2PA::read_exact_result(s, offset, size, Err(e)),
            }
        } else {
            match r {
                Ok(NamedTable::Generic(t)) => TableGeneric::read_exact_result(
                    s,
                    offset,
                    size,
                    Ok(t),
                ),
                Ok(_) => false,
                Err(e) => TableGeneric::read_exact_result(s, offset, size, Err(e)),
            }
        }
    }

    /// Whether reading the table tagged `tag` succeeds.
    pub open spec fn read_exact_ok(tag: FontTag, s: StreamState, offset: usize, size: usize) -> bool {
        if tag@ == dsig_tag_bytes() {
            TableDSIG::read_exact_ok(s, offset, size)
        } else if tag@ == head_tag_bytes() {
            TableHead::read_exact_ok(s, offset, size)
        } else if tag@ == c2pa_tag_bytes() {
            TableC2PA::read_exact_ok(s, offset, size)
        } else {
            TableGeneric::read_exact_ok(s, offset, size)
        }
    }

    /// Reads the table tagged `tag`, of `size` bytes at `offset`, as the
    /// kind of table that the tag names.
    pub fn from_reader_exact(tag: &FontTag, reader: &mut Cursor, offset: usize, size: usize) -> (r:
        Result<Self, FontIoError>)
        ensures
            Self::read_exact_result(*tag, old(reader)@, offset, size, r),
            r is Ok <==> Self::read_exact_ok(*tag, old(reader)@, offset, size),
            final(reader)@ == old(reader)@.at(final(reader)@.pos),
    {
        if tag.same(&FontTag::dsig()) {
            match TableDSIG::from_reader_exact(reader, offset, size) {
                Ok(t) => Ok(NamedTable::DSIG(t)),
                Err(e) => Err(e),
            }
        } else if tag.same(&FontTag::head()) {
            match TableHead::from_reader_exact(reader, offset, size) {
                Ok(t) => Ok(NamedTable::Head(t)),
                Err(e) => Err(e),
            }
        } else if tag.same(&FontTag::c2pa()) {
            match TableC2PA::from_reader_exact(reader, offset, size) {
                Ok(t) => Ok(NamedTable::C2PA(t)),
                Err(e) => Err(e),
            }
        } else {
            match TableGeneric::from_reader_exact(reader, offset, size) {
                Ok(t) => Ok(NamedTable::Generic(t)),
                Err(e) => Err(e),
            }
        }
    }
}

impl FontDataWrite for NamedTable {
    type Error = FontIoError;

    open spec fn bytes_spec(&self) -> Seq<u8> {
        match self {
            NamedTable::DSIG(t) => t.bytes_spec(),
            NamedTable::Head(t) => t.bytes_spec(),
            NamedTable::C2PA(t) => t.bytes_spec(),
            NamedTable::Generic(t) => t.bytes_spec(),
        }
    }

    /// Writes the table as its kind does.
    fn write(&self, dest: &mut Cursor) -> (r: Result<(), FontIoError>)
        ensures
            r matches Err(e) ==> (e == FontIoError::IoError(IoErrorKind::WriteZero) || e
                == FontIoError::FailedToWriteTableData(IoErrorKind::WriteZero)),
    {
        match self {
            NamedTable::DSIG(t) => t.write(dest),
            NamedTable::Head(t) => t.write(dest),
            NamedTable::C2PA(t) => t.write(dest),
            NamedTable::Generic(t) => t.write(dest),
        }
    }
}

impl FontDataChecksum for NamedTable {
    open spec fn checksum_spec(&self) -> u32 {
        match self {
            NamedTable::DSIG(t) => t.checksum_spec(),
            NamedTable::Head(t) => t.checksum_spec(),
            NamedTable::C2PA(t) => t.checksum_spec(),
            NamedTable::Generic(t) => t.checksum_spec(),
        }
    }

    /// The checksum of the table, as its kind computes it.
    fn checksum(&self) -> (r: u32) {
        match self {
            NamedTable::DSIG(t) => t.checksum(),
            NamedTable::Head(t) => t.checksum(),
            NamedTable::C2PA(t) => t.checksum(),
            NamedTable::Generic(t) => t.checksum(),
        }
    }
}

impl FontTable for NamedTable {
    open spec fn len_spec(&self) -> u32 {
        match self {
            NamedTable::DSIG(t) => t.len_spec(),
            NamedTable::Head(t) => t.len_spec(),
            NamedTable::C2PA(t) => t.len_spec(),
            NamedTable::Generic(t) => t.len_spec(),
        }
    }

    /// The length of the table, as its kind gives it.
    fn len(&self) -> (r: u32) {
        match self {
            NamedTable::DSIG(t) => t.len(),
            NamedTable::Head(t) => t.len(),
            NamedTable::C2PA(t) => t.len(),
            NamedTable::Generic(t) => t.len(),
        }
    }
}

} // verus!
