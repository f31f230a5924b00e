//! The 'DSIG' SFNT table.

use crate::byte_order::{
    be_u16, be_u32, lemma_u16_roundtrip, lemma_u32_bytes_of_pair, lemma_u32_roundtrip, push_u16_be,
    push_u32_be, u16_bytes, u32_bytes,
};
use crate::error::FontIoError;
use crate::io::{lemma_remaining_advance, Cursor, IoErrorKind, StreamState};
use crate::tag::{dsig_tag_bytes, FontTag};
use crate::utils::{add32, lemma_checksum_words, spec_checksum, u32_from_u16_pair, words_bytes, words_sum};
use crate::{FontDataChecksum, FontDataExactRead, FontDataWrite, FontTable};
use vstd::prelude::*;

verus! {

broadcast use crate::io::lemma_cursor_wf;

/// 'DSIG' font table. The signatures themselves are not kept in order to be
/// written: the table is meant to be used as a stub.
#[derive(Debug)]
#[allow(non_snake_case)]
pub struct TableDSIG {
    /// Version of the DSIG table.
    pub version: u32,
    /// Number of signatures in the DSIG table.
    pub numSignatures: u16,
    /// Flags of the DSIG table.
    pub flags: u16,
    /// The rest of the table as read; it is not written back.
    pub data: Vec<u8>,
}

impl TableDSIG {
    /// The version of a stub DSIG table.
    pub const DEFAULT_VERSION: u32 = 0x00000001;
    /// The flag that asks not to re-sign the font.
    pub const DO_NOT_RESIGN: u16 = 0x0001;
    /// The size of the part of a DSIG table that is kept.
    pub const MINIMUM_SIZE: usize = 8;

    /// The bytes that the table is written as: version, count and flags.
    pub open spec fn spec_bytes(&self) -> Seq<u8> {
        u32_bytes(self.version) + u16_bytes(self.numSignatures) + u16_bytes(self.flags)
    }

    /// The checksum of the table: the sum of its two words.
    pub open spec fn spec_checksum(&self) -> u32 {
        add32(self.version, (self.numSignatures as int * 0x10000 + self.flags as int) as u32)
    }

    /// The table is a stub: version 1, no signatures, do not re-sign, no
    /// data.
    pub open spec fn spec_is_stubbed(&self) -> bool {
        &&& self.version == 1
        &&& self.numSignatures == 0
        &&& self.flags == 1
        &&& self.data@.len() == 0
    }

    /// What reading a DSIG table of `size` bytes at `offset` of a stream in
    /// state `s` gives: the version, count and flags, then as much of the
    /// rest of the table as the stream holds.
    pub open spec fn read_exact_result(
        s: StreamState,
        offset: usize,
        size: usize,
        r: Result<TableDSIG, FontIoError>,
    ) -> bool {
        &&& (size < 8 ==> (r matches Err(FontIoError::LoadTableTruncated(t)) && t@ == dsig_tag_bytes()))
        &&& (size >= 8 ==> ({
                let rem = s.at(offset as int).remaining();
                &&& rem.len() < 8 ==> r == Err::<TableDSIG, FontIoError>(
                    FontIoError::IoError(IoErrorKind::UnexpectedEof),
                )
                &&& rem.len() >= 8 ==> (r matches Ok(t) && {
                    &&& t.version == be_u32(rem)
                    &&& t.numSignatures == be_u16(rem.subrange(4, 6))
                    &&& t.flags == be_u16(rem.subrange(6, 8))
                    &&& t.data@ == (if rem.len() <= size {
                        rem.subrange(8, rem.len() as int)
                    } else {
                        rem.subrange(8, size as int)
                    })
                })
            }))
    }

    /// Whether reading a DSIG table of `size` bytes at `offset` succeeds.
    pub open spec fn read_exact_ok(s: StreamState, offset: usize, size: usize) -> bool {
        size >= 8 && s.at(offset as int).remaining().len() >= 8
    }

    /// Creates a stub DSIG table.
    pub fn stub() -> (r: Self)
        ensures
            r.spec_is_stubbed(),
            r.version == 1,
            r.numSignatures == 0,
            r.flags == 1,
            r.data@.len() == 0,
    {
        Self {
            version: Self::DEFAULT_VERSION,
            numSignatures: 0,
            flags: Self::DO_NOT_RESIGN,
            data: Vec::new(),
        }
    }

    /// Whether this table is a stub.
    pub fn is_stubbed(&self) -> (r: bool)
        ensures
            r == self.spec_is_stubbed(),
            r == (self.version == 1 && self.numSignatures == 0 && self.flags == 1 && self.data@.len()
                == 0),
    {
        self.version == Self::DEFAULT_VERSION && self.numSignatures == 0 && self.flags
            == Self::DO_NOT_RESIGN && self.data.len() == 0
    }
}

/// A DSIG table is a stub exactly when it is the table that `stub` makes:
/// version 1, no signatures, the flag that asks not to re-sign (1), and no
/// data; a table of any other flags, such as the placeholder of flags 0, is
/// no stub.
pub proof fn law_stub_is_exact(t: TableDSIG)
    ensures
        t.spec_is_stubbed() <==> (t.version == 1 && t.numSignatures == 0 && t.flags == 1
            && t.data@.len() == 0),
        t.flags != 1 ==> !t.spec_is_stubbed(),
{
}

/// Reading the bytes that a DSIG table is written as, whatever follows
/// them, gives its version, count and flags back.
pub proof fn law_dsig_roundtrip(t: &TableDSIG, rest: Seq<u8>)
    ensures
        ({
            let b = t.spec_bytes() + rest;
            &&& b.len() >= 8
            &&& be_u32(b) == t.version
            &&& be_u16(b.subrange(4, 6)) == t.numSignatures
            &&& be_u16(b.subrange(6, 8)) == t.flags
        }),
{
    let b = t.spec_bytes() + rest;
    lemma_u32_roundtrip(t.version, seq![0u8, 0u8, 0u8, 0u8]);
    lemma_u16_roundtrip(t.numSignatures, seq![0u8, 0u8]);
    lemma_u16_roundtrip(t.flags, seq![0u8, 0u8]);
    assert(b.subrange(0, 4) =~= u32_bytes(t.version));
    assert(be_u32(b) == be_u32(b.subrange(0, 4)));
    assert(b.subrange(4, 6) =~= u16_bytes(t.numSignatures));
    assert(b.subrange(6, 8) =~= u16_bytes(t.flags));
}

/// The checksum of a DSIG table is the checksum of its bytes.
pub proof fn lemma_dsig_checksum_is_bytes_checksum(t: &TableDSIG)
    ensures
        t.spec_checksum() == spec_checksum(t.spec_bytes()),
        t.spec_bytes().len() == 8,
{
    let pair = (t.numSignatures as int * 0x10000 + t.flags as int) as u32;
    let ws = seq![t.version, pair];
    lemma_u32_bytes_of_pair(t.numSignatures, t.flags);
    lemma_checksum_words(ws);
    reveal_with_fuel(words_bytes, 3);
    reveal_with_fuel(words_sum, 3);
    assert(ws.drop_last().drop_last() =~= Seq::<u32>::empty());
    assert(ws.drop_last() =~= seq![t.version]);
    assert(words_bytes(ws) =~= t.spec_bytes());
    assert(words_sum(ws) == add32(add32(0, t.version), pair));
}

impl FontDataExactRead for TableDSIG {
    type Error = FontIoError;

    /// Reads a DSIG table of `size` bytes at `offset`: the version, count and
    /// flags, then up to the rest of the table as data.
    fn from_reader_exact(reader: &mut Cursor, offset: usize, size: usize) -> (r: Result<
        Self,
        FontIoError,
    >)
        ensures
            Self::read_exact_result(old(reader)@, offset, size, r),
            final(reader)@ == old(reader)@.at(final(reader)@.pos),
    {
        reader.set_position(offset);
        if size < Self::MINIMUM_SIZE {
            return Err(FontIoError::LoadTableTruncated(FontTag::dsig()));
        }
        let ghost s = reader@;
        let version = match reader.read_u32_be() {
            Ok(v) => v,
            Err(e) => return Err(FontIoError::IoError(e)),
        };
        proof {
            lemma_remaining_advance(s, 4);
        }
        let ghost s1 = reader@;
        let num_signatures = match reader.read_u16_be() {
            Ok(v) => v,
            Err(e) => return Err(FontIoError::IoError(e)),
        };
        proof {
            lemma_remaining_advance(s1, 2);
        }
        let ghost s2 = reader@;
        let flags = match reader.read_u16_be() {
            Ok(v) => v,
            Err(e) => return Err(FontIoError::IoError(e)),
        };
        proof {
            lemma_remaining_advance(s2, 2);
        }
        let data = reader.read_up_to(size - Self::MINIMUM_SIZE);
        proof {
            let rem = s.remaining();
            assert(be_u16(rem.subrange(4, 6)) == num_signatures);
            assert(be_u16(rem.subrange(6, 8)) == flags);
            if rem.len() <= size {
                assert(data@ =~= rem.subrange(8, rem.len() as int));
            } else {
                assert(data@ =~= rem.subrange(8, size as int));
            }
        }
        Ok(TableDSIG { version, numSignatures: num_signatures, flags, data })
    }
}

impl FontDataWrite for TableDSIG {
    type Error = FontIoError;

    open spec fn bytes_spec(&self) -> Seq<u8> {
        self.spec_bytes()
    }

    /// Writes the version, count and flags.
    fn write(&self, dest: &mut Cursor) -> (r: Result<(), FontIoError>)
        ensures
            r matches Err(e) ==> e == FontIoError::IoError(IoErrorKind::WriteZero),
    {
        let mut buf: Vec<u8> = Vec::new();
        push_u32_be(&mut buf, self.version);
        push_u16_be(&mut buf, self.numSignatures);
        push_u16_be(&mut buf, self.flags);
        assert(buf@ =~= self.spec_bytes());
        match dest.write_all(buf.as_slice()) {
            Ok(()) => Ok(()),
            Err(e) => Err(FontIoError::IoError(e)),
        }
    }
}

impl FontDataChecksum for TableDSIG {
    open spec fn checksum_spec(&self) -> u32 {
        self.spec_checksum()
    }

    /// The wrapping sum of the table's two words.
    fn checksum(&self) -> (r: u32) {
        self.version.wrapping_add(u32_from_u16_pair(self.numSignatures, self.flags))
    }
}

impl FontTable for TableDSIG {
    open spec fn len_spec(&self) -> u32 {
        8
    }

    /// The length of the table as written.
    fn len(&self) -> (r: u32) {
        8
    }
}

} // verus!
