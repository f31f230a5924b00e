//! The 'head' SFNT table.

use crate::byte_order::{
    be16_at, be32_at, be64_at, lemma_u16_roundtrip, lemma_u32_bytes_of_pair, lemma_u32_roundtrip,
    lemma_u64_bytes_of_i64, lemma_u64_roundtrip, u16_at, u16_bytes, u32_at, u64_at,
};
use crate::error::FontIoError;
use crate::io::{Cursor, IoErrorKind, StreamState};
use crate::tag::{head_tag_bytes, FontTag};
use crate::utils::{
    lemma_checksum_words, lemma_words_bytes_at, push_words, spec_checksum, sum_words,
    u32_from_u16_pair, words_bytes, words_sum,
};
use crate::{FontDataChecksum, FontDataExactRead, FontDataRead, FontDataWrite, FontTable};
use vstd::prelude::*;

verus! {

/// The magic number that every 'head' table holds.
pub const HEAD_TABLE_MAGIC_NUMBER: u32 = 0x5f0f3cf5;

/// The whole-font checksum that the 'head' table's checksum adjustment makes
/// a font come to.
pub const SFNT_EXPECTED_CHECKSUM: u32 = 0xb1b0afba;

/// 'head' font table.
#[derive(Debug, Clone, Copy)]
#[allow(non_snake_case)]
pub struct TableHead {
    /// Major version number of the table.
    pub majorVersion: u16,
    /// Minor version number of the table.
    pub minorVersion: u16,
    /// Revision number of the font.
    pub fontRevision: u32,
    /// Checksum adjustment.
    pub checksumAdjustment: u32,
    /// Magic number.
    pub magicNumber: u32,
    /// Flags.
    pub flags: u16,
    /// Units per em.
    pub unitsPerEm: u16,
    /// Date created.
    pub created: i64,
    /// Date modified.
    pub modified: i64,
    /// Minimum x.
    pub xMin: i16,
    /// Minimum y.
    pub yMin: i16,
    /// Maximum x.
    pub xMax: i16,
    /// Maximum y.
    pub yMax: i16,
    /// Mac style.
    pub macStyle: u16,
    /// Smallest readable size in pixels.
    pub lowestRecPPEM: u16,
    /// Font direction hint.
    pub fontDirectionHint: i16,
    /// Format of the location index.
    pub indexToLocFormat: i16,
    /// Format of the glyph data.
    pub glyphDataFormat: i16,
}

/// The word made of two halfwords.
pub open spec fn pair(hi: u16, lo: u16) -> u32 {
    (hi as int * 0x10000 + lo as int) as u32
}

/// The 'head' table whose fields the first 54 bytes of `b` hold.
pub open spec fn spec_head_fields(b: Seq<u8>) -> TableHead {
    TableHead {
        majorVersion: be16_at(b, 0),
        minorVersion: be16_at(b, 2),
        fontRevision: be32_at(b, 4),
        checksumAdjustment: be32_at(b, 8),
        magicNumber: be32_at(b, 12),
        flags: be16_at(b, 16),
        unitsPerEm: be16_at(b, 18),
        created: be64_at(b, 20) as i64,
        modified: be64_at(b, 28) as i64,
        xMin: be16_at(b, 36) as i16,
        yMin: be16_at(b, 38) as i16,
        xMax: be16_at(b, 40) as i16,
        yMax: be16_at(b, 42) as i16,
        macStyle: be16_at(b, 44),
        lowestRecPPEM: be16_at(b, 46),
        fontDirectionHint: be16_at(b, 48) as i16,
        indexToLocFormat: be16_at(b, 50) as i16,
        glyphDataFormat: be16_at(b, 52) as i16,
    }
}

/// The 'head' table that the bytes `s` start with, or why they do not.
pub open spec fn spec_parse_head(s: Seq<u8>) -> Result<TableHead, FontIoError> {
    if s.len() < 54 {
        Err(FontIoError::IoError(IoErrorKind::UnexpectedEof))
    } else if spec_head_fields(s).magicNumber != HEAD_TABLE_MAGIC_NUMBER {
        Err(FontIoError::InvalidHeadMagicNumber(spec_head_fields(s).magicNumber))
    } else {
        Ok(spec_head_fields(s))
    }
}

impl TableHead {
    /// The size of a 'head' table.
    pub const SIZE: usize = 54;

    /// What reading a 'head' table of `size` bytes at `offset` of a stream
    /// in state `s` gives: the size must be that of the table.
    pub open spec fn read_exact_result(
        s: StreamState,
        offset: usize,
        size: usize,
        r: Result<TableHead, FontIoError>,
    ) -> bool {
        &&& size != 54 ==> (r matches Err(FontIoError::LoadTableTruncated(t)) && t@
            == head_tag_bytes())
        &&& size == 54 ==> r == spec_parse_head(s.at(offset as int).remaining())
    }

    /// Whether reading a 'head' table of `size` bytes at `offset` succeeds.
    pub open spec fn read_exact_ok(s: StreamState, offset: usize, size: usize) -> bool {
        size == 54 && spec_parse_head(s.at(offset as int).remaining()) is Ok
    }

    /// The fourteen words that the table is written as, with the given value
    /// in place of the checksum adjustment; the last halfword is padding.
    pub open spec fn spec_words(&self, adjustment: u32) -> Seq<u32> {
        seq![
            pair(self.majorVersion, self.minorVersion),
            self.fontRevision,
            adjustment,
            self.magicNumber,
            pair(self.flags, self.unitsPerEm),
            (self.created >> 32u64) as u32,
            self.created as u32,
            (self.modified >> 32u64) as u32,
            self.modified as u32,
            pair(self.xMin as u16, self.yMin as u16),
            pair(self.xMax as u16, self.yMax as u16),
            pair(self.macStyle, self.lowestRecPPEM),
            pair(self.fontDirectionHint as u16, self.indexToLocFormat as u16),
            pair(self.glyphDataFormat as u16, 0),
        ]
    }

    /// The bytes of the table: its fields big-endian, then two zero bytes of
    /// padding, which are the bytes of its words.
    pub open spec fn spec_bytes(&self) -> Seq<u8> {
        words_bytes(self.spec_words(self.checksumAdjustment))
    }

    /// The checksum of the table, the checksum adjustment counting as zero.
    pub open spec fn spec_checksum(&self) -> u32 {
        words_sum(self.spec_words(0))
    }

    /// The words of the table, with `adjustment` for the checksum
    /// adjustment.
    fn words(&self, adjustment: u32) -> (r: Vec<u32>)
        ensures
            r@ == self.spec_words(adjustment),
    {
        let mut ws: Vec<u32> = Vec::new();
        ws.push(u32_from_u16_pair(self.majorVersion, self.minorVersion));
        ws.push(self.fontRevision);
        ws.push(adjustment);
        ws.push(self.magicNumber);
        ws.push(u32_from_u16_pair(self.flags, self.unitsPerEm));
        ws.push((self.created >> 32u64) as u32);
        ws.push(self.created as u32);
        ws.push((self.modified >> 32u64) as u32);
        ws.push(self.modified as u32);
        ws.push(u32_from_u16_pair(self.xMin as u16, self.yMin as u16));
        ws.push(u32_from_u16_pair(self.xMax as u16, self.yMax as u16));
        ws.push(u32_from_u16_pair(self.macStyle, self.lowestRecPPEM));
        ws.push(u32_from_u16_pair(self.fontDirectionHint as u16, self.indexToLocFormat as u16));
        ws.push(u32_from_u16_pair(self.glyphDataFormat as u16, 0));
        assert(ws@ =~= self.spec_words(adjustment));
        ws
    }
}

/// The checksum of a 'head' table is the checksum of its bytes with the
/// checksum adjustment taken as zero.
pub proof fn lemma_head_checksum_is_bytes_checksum(h: &TableHead)
    ensures
        h.spec_checksum() == spec_checksum(words_bytes(h.spec_words(0))),
{
    lemma_checksum_words(h.spec_words(0));
}

/// The bytes of a 'head' table hold, big-endian as OpenType lays them out,
/// the major and minor version at offsets 0 and 2, the font revision at 4,
/// the checksum adjustment at 8 and the magic number at 12.
pub proof fn law_head_fields_at(t: TableHead)
    ensures
        t.spec_bytes().len() == 56,
        be16_at(t.spec_bytes(), 0) == t.majorVersion,
        be16_at(t.spec_bytes(), 2) == t.minorVersion,
        be32_at(t.spec_bytes(), 4) == t.fontRevision,
        be32_at(t.spec_bytes(), 8) == t.checksumAdjustment,
        be32_at(t.spec_bytes(), 12) == t.magicNumber,
{
    let ws = t.spec_words(t.checksumAdjustment);
    let b = t.spec_bytes();
    lemma_checksum_words(ws);
    assert(b.subrange(0, 56) =~= words_bytes(ws));
    lemma_pair_halves(b, ws, 0, t.majorVersion, t.minorVersion);
    lemma_word_at(b, ws, 1);
    lemma_word_at(b, ws, 2);
    lemma_word_at(b, ws, 3);
}

/// The halfwords of a pair word are at its two byte offsets.
proof fn lemma_pair_halves(b: Seq<u8>, ws: Seq<u32>, k: int, hi: u16, lo: u16)
    requires
        0 <= k < ws.len(),
        ws[k] == pair(hi, lo),
        b.len() >= 4 * ws.len(),
        b.subrange(0, 4 * ws.len() as int) == words_bytes(ws),
    ensures
        be16_at(b, 4 * k) == hi,
        be16_at(b, 4 * k + 2) == lo,
{
    lemma_words_bytes_at(ws, k);
    lemma_u32_bytes_of_pair(hi, lo);
    lemma_u16_roundtrip(hi, seq![0u8, 0u8]);
    lemma_u16_roundtrip(lo, seq![0u8, 0u8]);
    let w = words_bytes(ws);
    assert(b.subrange(4 * k, 4 * k + 4) =~= w.subrange(4 * k, 4 * k + 4));
    assert(b.subrange(4 * k, 4 * k + 2) =~= u16_bytes(hi));
    assert(b.subrange(4 * k + 2, 4 * k + 4) =~= u16_bytes(lo));
}

/// The word at its byte offset.
proof fn lemma_word_at(b: Seq<u8>, ws: Seq<u32>, k: int)
    requires
        0 <= k < ws.len(),
        b.len() >= 4 * ws.len(),
        b.subrange(0, 4 * ws.len() as int) == words_bytes(ws),
    ensures
        be32_at(b, 4 * k) == ws[k],
{
    lemma_words_bytes_at(ws, k);
    lemma_u32_roundtrip(ws[k], seq![0u8, 0u8, 0u8, 0u8]);
    assert(b.subrange(4 * k, 4 * k + 4) =~= words_bytes(ws).subrange(4 * k, 4 * k + 4));
}

/// A date that is written as two words, the high one at `k`.
proof fn lemma_date_at(b: Seq<u8>, ws: Seq<u32>, k: int, x: i64)
    requires
        0 <= k,
        k + 1 < ws.len(),
        ws[k] == (x >> 32u64) as u32,
        ws[k + 1] == x as u32,
        b.len() >= 4 * ws.len(),
        b.subrange(0, 4 * ws.len() as int) == words_bytes(ws),
    ensures
        be64_at(b, 4 * k) as i64 == x,
{
    lemma_words_bytes_at(ws, k);
    lemma_words_bytes_at(ws, k + 1);
    lemma_u64_bytes_of_i64(x);
    lemma_u64_roundtrip(x as u64, seq![0u8, 0u8, 0u8, 0u8, 0u8, 0u8, 0u8, 0u8]);
    let w = words_bytes(ws);
    assert(b.subrange(4 * k, 4 * k + 8) =~= w.subrange(4 * k, 4 * k + 4) + w.subrange(
        4 * k + 4,
        4 * k + 8,
    ));
    assert(be64_at(b, 4 * k) == x as u64);
    assert((x as u64) as i64 == x) by (bit_vector);
}

/// A signed halfword read back from its unsigned form.
proof fn lemma_i16_roundtrip(x: i16)
    ensures
        (x as u16) as i16 == x,
{
    assert((x as u16) as i16 == x) by (bit_vector);
}

/// Reading the bytes that a 'head' table is written as, whatever follows
/// them, gives the table back, provided it holds the magic number.
pub proof fn law_head_roundtrip(t: TableHead, rest: Seq<u8>)
    requires
        t.magicNumber == HEAD_TABLE_MAGIC_NUMBER,
    ensures
        spec_parse_head(t.spec_bytes() + rest) == Ok::<TableHead, FontIoError>(t),
{
    let ws = t.spec_words(t.checksumAdjustment);
    let b = t.spec_bytes() + rest;
    lemma_checksum_words(ws);
    assert(b.subrange(0, 56) =~= words_bytes(ws));
    lemma_pair_halves(b, ws, 0, t.majorVersion, t.minorVersion);
    lemma_word_at(b, ws, 1);
    lemma_word_at(b, ws, 2);
    lemma_word_at(b, ws, 3);
    lemma_pair_halves(b, ws, 4, t.flags, t.unitsPerEm);
    lemma_date_at(b, ws, 5, t.created);
    lemma_date_at(b, ws, 7, t.modified);
    lemma_pair_halves(b, ws, 9, t.xMin as u16, t.yMin as u16);
    lemma_pair_halves(b, ws, 10, t.xMax as u16, t.yMax as u16);
    lemma_pair_halves(b, ws, 11, t.macStyle, t.lowestRecPPEM);
    lemma_pair_halves(b, ws, 12, t.fontDirectionHint as u16, t.indexToLocFormat as u16);
    lemma_pair_halves(b, ws, 13, t.glyphDataFormat as u16, 0);
    lemma_i16_roundtrip(t.xMin);
    lemma_i16_roundtrip(t.yMin);
    lemma_i16_roundtrip(t.xMax);
    lemma_i16_roundtrip(t.yMax);
    lemma_i16_roundtrip(t.fontDirectionHint);
    lemma_i16_roundtrip(t.indexToLocFormat);
    lemma_i16_roundtrip(t.glyphDataFormat);
    assert(spec_head_fields(b) == t);
}

impl FontDataRead for TableHead {
    type Error = FontIoError;

    /// Reads the 54 bytes of a 'head' table and checks its magic number.
    fn from_reader(reader: &mut Cursor) -> (r: Result<Self, FontIoError>)
        ensures
            r == spec_parse_head(old(reader)@.remaining()),
            final(reader)@ == old(reader)@.at(final(reader)@.pos),
    {
        let b = match reader.read_exact(Self::SIZE) {
            Ok(b) => b,
            Err(e) => return Err(FontIoError::IoError(e)),
        };
        let ghost rem = old(reader)@.remaining();
        let bs = b.as_slice();
        let head = Self {
            majorVersion: u16_at(bs, 0),
            minorVersion: u16_at(bs, 2),
            fontRevision: u32_at(bs, 4),
            checksumAdjustment: u32_at(bs, 8),
            magicNumber: u32_at(bs, 12),
            flags: u16_at(bs, 16),
            unitsPerEm: u16_at(bs, 18),
            created: u64_at(bs, 20) as i64,
            modified: u64_at(bs, 28) as i64,
            xMin: u16_at(bs, 36) as i16,
            yMin: u16_at(bs, 38) as i16,
            xMax: u16_at(bs, 40) as i16,
            yMax: u16_at(bs, 42) as i16,
            macStyle: u16_at(bs, 44),
            lowestRecPPEM: u16_at(bs, 46),
            fontDirectionHint: u16_at(bs, 48) as i16,
            indexToLocFormat: u16_at(bs, 50) as i16,
            glyphDataFormat: u16_at(bs, 52) as i16,
        };
        proof {
            assert forall|i: int, j: int| 0 <= i <= j <= 54 implies #[trigger] b@.subrange(i, j)
                == rem.subrange(i, j) by {
                assert(b@.subrange(i, j) =~= rem.subrange(i, j));
            }
            assert(head == spec_head_fields(rem));
        }
        if head.magicNumber != HEAD_TABLE_MAGIC_NUMBER {
            return Err(FontIoError::InvalidHeadMagicNumber(head.magicNumber));
        }
        Ok(head)
    }
}

impl FontDataExactRead for TableHead {
    type Error = FontIoError;

    /// Reads a 'head' table at `offset`; `size` must be that of the table.
    fn from_reader_exact(reader: &mut Cursor, offset: usize, size: usize) -> (r: Result<
        Self,
        FontIoError,
    >)
        ensures
            Self::read_exact_result(old(reader)@, offset, size, r),
            final(reader)@ == old(reader)@.at(final(reader)@.pos),
    {
        reader.set_position(offset);
        if size != Self::SIZE {
            return Err(FontIoError::LoadTableTruncated(FontTag::head()));
        }
        Self::from_reader(reader)
    }
}

impl FontDataWrite for TableHead {
    type Error = FontIoError;

    open spec fn bytes_spec(&self) -> Seq<u8> {
        self.spec_bytes()
    }

    /// Writes the fields of the table and two bytes of padding.
    fn write(&self, dest: &mut Cursor) -> (r: Result<(), FontIoError>)
        ensures
            r matches Err(e) ==> e == FontIoError::IoError(IoErrorKind::WriteZero),
    {
        let ws = self.words(self.checksumAdjustment);
        let mut buf: Vec<u8> = Vec::new();
        push_words(&mut buf, &ws);
        assert(buf@ =~= self.spec_bytes());
        match dest.write_all(buf.as_slice()) {
            Ok(()) => Ok(()),
            Err(e) => Err(FontIoError::IoError(e)),
        }
    }
}

impl FontDataChecksum for TableHead {
    open spec fn checksum_spec(&self) -> u32 {
        self.spec_checksum()
    }

    /// The wrapping sum of the table's words, the checksum adjustment
    /// counting as zero.
    fn checksum(&self) -> (r: u32) {
        let ws = self.words(0);
        sum_words(&ws)
    }
}

impl FontTable for TableHead {
    open spec fn len_spec(&self) -> u32 {
        54
    }

    /// The length of the table, without its padding.
    fn len(&self) -> (r: u32) {
        54
    }
}

} // verus!
