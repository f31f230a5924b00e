//! SFNT font file header.

use crate::byte_order::{be_u16, be_u32, push_u16_be, push_u32_be, u16_bytes, u32_bytes, lemma_u16_roundtrip, lemma_u32_roundtrip};
use crate::error::FontIoError;
use crate::io::{lemma_remaining_advance, Cursor, IoErrorKind};
use crate::magic::Magic;
use crate::utils::{
    add32, lemma_checksum_concat, lemma_checksum_u16_pair, lemma_checksum_u32, spec_checksum,
    u32_from_u16_pair,
};
use crate::{FontDataChecksum, FontDataExactRead, FontDataRead, FontDataWrite, FontHeader};
use vstd::prelude::*;

verus! {

/// SFNT header, from the OpenType spec.
#[derive(Debug, Clone, Copy)]
#[allow(non_snake_case)]
pub struct SfntHeader {
    /// The SFNT version.
    pub sfntVersion: Magic,
    /// The number of tables in the font.
    pub numTables: u16,
    /// The search range.
    pub searchRange: u16,
    /// The entry selector.
    pub entrySelector: u16,
    /// The range shift.
    pub rangeShift: u16,
}

/// The header that the bytes `s` start with, or why they do not start with
/// one: the format is read first, and the rest only when it is known.
pub open spec fn spec_parse_header(s: Seq<u8>) -> Result<SfntHeader, FontIoError> {
    if s.len() < 4 {
        Err(FontIoError::IoError(IoErrorKind::UnexpectedEof))
    } else {
        match Magic::spec_from_value(be_u32(s)) {
            None => Err(FontIoError::UnknownMagic(be_u32(s))),
            Some(m) => if s.len() < 12 {
                Err(FontIoError::IoError(IoErrorKind::UnexpectedEof))
            } else {
                Ok(
                    SfntHeader {
                        sfntVersion: m,
                        numTables: be_u16(s.subrange(4, 6)),
                        searchRange: be_u16(s.subrange(6, 8)),
                        entrySelector: be_u16(s.subrange(8, 10)),
                        rangeShift: be_u16(s.subrange(10, 12)),
                    },
                )
            },
        }
    }
}

impl SfntHeader {
    /// The size of an SFNT header.
    pub const SIZE: usize = 12;

    /// The bytes of the header: the format number and the four counts,
    /// big-endian.
    pub open spec fn spec_bytes(self) -> Seq<u8> {
        u32_bytes(self.sfntVersion.spec_value()) + u16_bytes(self.numTables) + u16_bytes(
            self.searchRange,
        ) + u16_bytes(self.entrySelector) + u16_bytes(self.rangeShift)
    }

    /// The checksum of the header: the wrapping sum of its three words.
    pub open spec fn spec_checksum(self) -> u32 {
        add32(
            add32(
                self.sfntVersion.spec_value(),
                (self.numTables as int * 0x10000 + self.searchRange as int) as u32,
            ),
            (self.entrySelector as int * 0x10000 + self.rangeShift as int) as u32,
        )
    }

    /// Builds the bytes of the header.
    fn to_bytes(&self) -> (r: Vec<u8>)
        ensures
            r@ == self.spec_bytes(),
    {
        let mut buf: Vec<u8> = Vec::new();
        push_u32_be(&mut buf, self.sfntVersion.value());
        push_u16_be(&mut buf, self.numTables);
        push_u16_be(&mut buf, self.searchRange);
        push_u16_be(&mut buf, self.entrySelector);
        push_u16_be(&mut buf, self.rangeShift);
        assert(buf@ =~= self.spec_bytes());
        buf
    }
}

/// The checksum of a header is the checksum of its bytes.
pub proof fn lemma_header_checksum_is_bytes_checksum(h: SfntHeader)
    ensures
        h.spec_checksum() == spec_checksum(h.spec_bytes()),
        h.spec_bytes().len() == 12,
{
    let a = u32_bytes(h.sfntVersion.spec_value());
    let b = u16_bytes(h.numTables) + u16_bytes(h.searchRange);
    let c = u16_bytes(h.entrySelector) + u16_bytes(h.rangeShift);
    lemma_u32_roundtrip(h.sfntVersion.spec_value(), seq![0u8, 0u8, 0u8, 0u8]);
    lemma_u16_roundtrip(h.numTables, seq![0u8, 0u8]);
    lemma_u16_roundtrip(h.searchRange, seq![0u8, 0u8]);
    lemma_u16_roundtrip(h.entrySelector, seq![0u8, 0u8]);
    lemma_u16_roundtrip(h.rangeShift, seq![0u8, 0u8]);
    assert(h.spec_bytes() =~= a + b + c);
    lemma_checksum_concat(a, b);
    lemma_checksum_concat(a + b, c);
    lemma_checksum_u32(h.sfntVersion.spec_value());
    lemma_checksum_u16_pair(h.numTables, h.searchRange);
    lemma_checksum_u16_pair(h.entrySelector, h.rangeShift);
}

/// Reading the bytes of a header, whatever follows them, gives the header
/// back.
pub proof fn law_header_roundtrip(h: SfntHeader, rest: Seq<u8>)
    ensures
        spec_parse_header(h.spec_bytes() + rest) == Ok::<SfntHeader, FontIoError>(h),
{
    let s = h.spec_bytes() + rest;
    let a = u32_bytes(h.sfntVersion.spec_value());
    lemma_u32_roundtrip(h.sfntVersion.spec_value(), seq![0u8, 0u8, 0u8, 0u8]);
    lemma_u16_roundtrip(h.numTables, seq![0u8, 0u8]);
    lemma_u16_roundtrip(h.searchRange, seq![0u8, 0u8]);
    lemma_u16_roundtrip(h.entrySelector, seq![0u8, 0u8]);
    lemma_u16_roundtrip(h.rangeShift, seq![0u8, 0u8]);
    assert(s.subrange(0, 4) =~= a);
    assert(be_u32(s) == be_u32(a));
    assert(s.subrange(4, 6) =~= u16_bytes(h.numTables));
    assert(s.subrange(6, 8) =~= u16_bytes(h.searchRange));
    assert(s.subrange(8, 10) =~= u16_bytes(h.entrySelector));
    assert(s.subrange(10, 12) =~= u16_bytes(h.rangeShift));
    crate::magic::lemma_magic_value_roundtrip(h.sfntVersion, 0);
}

/// The twelve bytes of a header hold, big-endian, the format number at
/// offset 0, the table count at 4, the search range at 6, the entry
/// selector at 8 and the range shift at 10, as OpenType lays them out.
pub proof fn law_header_fields_at(h: SfntHeader)
    ensures
        h.spec_bytes().len() == 12,
        be_u32(h.spec_bytes()) == h.sfntVersion.spec_value(),
        be_u16(h.spec_bytes().subrange(4, 6)) == h.numTables,
        be_u16(h.spec_bytes().subrange(6, 8)) == h.searchRange,
        be_u16(h.spec_bytes().subrange(8, 10)) == h.entrySelector,
        be_u16(h.spec_bytes().subrange(10, 12)) == h.rangeShift,
{
    law_header_roundtrip(h, Seq::empty());
    let s = h.spec_bytes();
    assert(s + Seq::<u8>::empty() =~= s);
    crate::magic::lemma_magic_value_roundtrip(h.sfntVersion, 0);
    lemma_u32_roundtrip(h.sfntVersion.spec_value(), seq![0u8, 0u8, 0u8, 0u8]);
    assert(s.subrange(0, 4) =~= u32_bytes(h.sfntVersion.spec_value()));
}

/// A header read from bytes takes its fields from the offsets where
/// OpenType puts them: the table count from bytes 4 and 5, the search range
/// from 6 and 7, the entry selector from 8 and 9, the range shift from 10
/// and 11.
pub proof fn law_header_read_at(s: Seq<u8>)
    ensures
        spec_parse_header(s) matches Ok(h) ==> {
            &&& s.len() >= 12
            &&& h.sfntVersion.spec_value() == be_u32(s)
            &&& h.numTables == be_u16(s.subrange(4, 6))
            &&& h.searchRange == be_u16(s.subrange(6, 8))
            &&& h.entrySelector == be_u16(s.subrange(8, 10))
            &&& h.rangeShift == be_u16(s.subrange(10, 12))
        },
{
    if let Ok(h) = spec_parse_header(s) {
        crate::magic::lemma_magic_value_roundtrip(h.sfntVersion, be_u32(s));
    }
}

impl Default for SfntHeader {
    fn default() -> (r: Self)
        ensures
            r.sfntVersion == Magic::TrueType,
            r.numTables == 0,
            r.searchRange == 0,
            r.entrySelector == 0,
            r.rangeShift == 0,
    {
        Self {
            sfntVersion: Magic::TrueType,
            numTables: 0,
            searchRange: 0,
            entrySelector: 0,
            rangeShift: 0,
        }
    }
}

impl FontDataRead for SfntHeader {
    type Error = FontIoError;

    /// Reads a header: the format number first, then the four counts.
    fn from_reader(reader: &mut Cursor) -> (r: Result<Self, FontIoError>)
        ensures
            r == spec_parse_header(old(reader)@.remaining()),
            r is Ok ==> final(reader)@ == old(reader)@.at(old(reader)@.pos + 12),
    {
        let ghost s = old(reader)@;
        let version = match reader.read_u32_be() {
            Ok(v) => v,
            Err(e) => return Err(FontIoError::IoError(e)),
        };
        let magic = match Magic::try_from(version) {
            Ok(m) => m,
            Err(e) => return Err(e),
        };
        proof {
            lemma_remaining_advance(s, 4);
        }
        let ghost s1 = reader@;
        let num_tables = match reader.read_u16_be() {
            Ok(v) => v,
            Err(e) => return Err(FontIoError::IoError(e)),
        };
        proof {
            lemma_remaining_advance(s1, 2);
        }
        let ghost s2 = reader@;
        let search_range = match reader.read_u16_be() {
            Ok(v) => v,
            Err(e) => return Err(FontIoError::IoError(e)),
        };
        proof {
            lemma_remaining_advance(s2, 2);
        }
        let ghost s3 = reader@;
        let entry_selector = match reader.read_u16_be() {
            Ok(v) => v,
            Err(e) => return Err(FontIoError::IoError(e)),
        };
        proof {
            lemma_remaining_advance(s3, 2);
        }
        let range_shift = match reader.read_u16_be() {
            Ok(v) => v,
            Err(e) => return Err(FontIoError::IoError(e)),
        };
        let h = Self {
            sfntVersion: magic,
            numTables: num_tables,
            searchRange: search_range,
            entrySelector: entry_selector,
            rangeShift: range_shift,
        };
        proof {
            let r = s.remaining();
            assert(be_u16(r.subrange(4, 6)) == num_tables);
            assert(be_u16(r.subrange(6, 8)) == search_range);
            assert(be_u16(r.subrange(8, 10)) == entry_selector);
            assert(be_u16(r.subrange(10, 12)) == range_shift);
        }
        Ok(h)
    }
}

impl FontDataExactRead for SfntHeader {
    type Error = FontIoError;

    /// Reads a header at `offset`; `size` must be that of a header.
    fn from_reader_exact(reader: &mut Cursor, offset: usize, size: usize) -> (r: Result<
        Self,
        FontIoError,
    >)
        ensures
            size != 12 ==> r == Err::<SfntHeader, FontIoError>(
                FontIoError::InvalidSizeForHeader(size),
            ),
            size == 12 ==> r == spec_parse_header(old(reader)@.at(offset as int).remaining()),
    {
        if size != Self::SIZE {
            return Err(FontIoError::InvalidSizeForHeader(size));
        }
        reader.set_position(offset);
        Self::from_reader(reader)
    }
}

impl FontDataWrite for SfntHeader {
    type Error = FontIoError;

    open spec fn bytes_spec(&self) -> Seq<u8> {
        self.spec_bytes()
    }

    /// Writes the header.
    fn write(&self, dest: &mut Cursor) -> (r: Result<(), FontIoError>)
        ensures
            r matches Err(e) ==> e == FontIoError::IoError(IoErrorKind::WriteZero),
    {
        let bytes = self.to_bytes();
        match dest.write_all(bytes.as_slice()) {
            Ok(()) => Ok(()),
            Err(e) => Err(FontIoError::IoError(e)),
        }
    }
}

impl FontDataChecksum for SfntHeader {
    open spec fn checksum_spec(&self) -> u32 {
        self.spec_checksum()
    }

    /// The wrapping sum of the header's three words.
    fn checksum(&self) -> (r: u32) {
        let w0 = self.sfntVersion.value();
        let w1 = u32_from_u16_pair(self.numTables, self.searchRange);
        let w2 = u32_from_u16_pair(self.entrySelector, self.rangeShift);
        w0.wrapping_add(w1).wrapping_add(w2)
    }
}

impl FontHeader for SfntHeader {
    /// The number of tables in the font.
    fn num_tables(&self) -> (r: u16)
        ensures
            r == self.numTables,
    {
        self.numTables
    }
}

} // verus!
