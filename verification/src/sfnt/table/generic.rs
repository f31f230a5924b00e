//! Generic SFNT table with unknown contents.

use crate::error::FontIoError;
use crate::io::{lemma_write_concat, zeros, Cursor, IoErrorKind, StreamState};
use crate::utils::{checksum, lemma_checksum_zero_padding, spec_checksum};
use crate::{FontDataChecksum, FontDataExactRead, FontDataRead, FontDataWrite, FontTable};
use vstd::prelude::*;

verus! {

broadcast use crate::io::lemma_cursor_wf;

/// The number of zero bytes that pad `n` bytes to a multiple of four.
pub open spec fn pad_len(n: nat) -> nat {
    if n % 4 == 0 {
        0
    } else {
        (4 - n % 4) as nat
    }
}

/// A font table whose contents are kept as bytes.
#[derive(Debug, Clone)]
pub struct TableGeneric {
    /// The bytes of the table.
    pub data: Vec<u8>,
}

impl TableGeneric {
    /// What reading `size` bytes at `offset` of a stream in state `s` gives.
    pub open spec fn read_exact_result(
        s: StreamState,
        offset: usize,
        size: usize,
        r: Result<TableGeneric, FontIoError>,
    ) -> bool {
        let rem = s.at(offset as int).remaining();
        &&& size <= rem.len() ==> (r matches Ok(t) && t.data@ == rem.take(size as int))
        &&& size > rem.len() ==> r == Err::<TableGeneric, FontIoError>(
            FontIoError::IoError(IoErrorKind::UnexpectedEof),
        )
    }

    /// Whether reading `size` bytes at `offset` succeeds.
    pub open spec fn read_exact_ok(s: StreamState, offset: usize, size: usize) -> bool {
        size <= s.at(offset as int).remaining().len()
    }
}

impl FontDataRead for TableGeneric {
    type Error = FontIoError;

    /// Reads every byte from the position to the end of the stream.
    fn from_reader(reader: &mut Cursor) -> (r: Result<Self, FontIoError>)
        ensures
            r matches Ok(t) && t.data@ == old(reader)@.remaining(),
    {
        let data = reader.read_to_end();
        Ok(TableGeneric { data })
    }
}

impl FontDataExactRead for TableGeneric {
    type Error = FontIoError;

    /// Reads `size` bytes at `offset`.
    fn from_reader_exact(reader: &mut Cursor, offset: usize, size: usize) -> (r: Result<
        Self,
        FontIoError,
    >)
        ensures
            Self::read_exact_result(old(reader)@, offset, size, r),
            final(reader)@ == old(reader)@.at(final(reader)@.pos),
    {
        reader.set_position(offset);
        match reader.read_exact(size) {
            Ok(data) => Ok(TableGeneric { data }),
            Err(e) => Err(FontIoError::IoError(e)),
        }
    }
}

impl FontDataWrite for TableGeneric {
    type Error = FontIoError;

    /// The data, padded with zero bytes to a multiple of four.
    open spec fn bytes_spec(&self) -> Seq<u8> {
        self.data@ + zeros(pad_len(self.data@.len()))
    }

    /// Writes the data, then the zero bytes that pad it to a multiple of
    /// four.
    fn write(&self, dest: &mut Cursor) -> (r: Result<(), FontIoError>)
        ensures
            r matches Err(e) ==> e == FontIoError::FailedToWriteTableData(IoErrorKind::WriteZero),
    {
        let ghost s = dest@;
        let ghost pad = zeros(pad_len(self.data@.len()));
        proof {
            lemma_write_concat(s, self.data@, pad);
        }
        if let Err(e) = dest.write_all(self.data.as_slice()) {
            return Err(FontIoError::FailedToWriteTableData(e));
        }
        let limit = self.data.len() % 4;
        if limit > 0 {
            let mut padding: Vec<u8> = Vec::new();
            let mut i: usize = 0;
            while i < 4 - limit
                invariant
                    0 < limit < 4,
                    i <= 4 - limit,
                    padding@ == zeros(i as nat),
                decreases 4 - limit - i,
            {
                padding.push(0);
                i = i + 1;
                assert(padding@ =~= zeros(i as nat));
            }
            assert(padding@ =~= pad);
            if let Err(e) = dest.write_all(padding.as_slice()) {
                return Err(FontIoError::FailedToWriteTableData(e));
            }
        } else {
            assert(self.data@ + pad =~= self.data@);
        }
        Ok(())
    }
}

impl FontDataChecksum for TableGeneric {
    open spec fn checksum_spec(&self) -> u32 {
        spec_checksum(self.data@)
    }

    /// The checksum of the data.
    fn checksum(&self) -> (r: u32) {
        checksum(self.data.as_slice())
    }
}

/// The checksum of a generic table is that of the bytes it is written as.
pub proof fn lemma_generic_checksum_is_bytes_checksum(t: &TableGeneric)
    ensures
        t.checksum_spec() == spec_checksum(t.bytes_spec()),
{
    lemma_checksum_zero_padding(t.data@, pad_len(t.data@.len()));
}

/// Reading as many bytes as a generic table holds from where it was
/// written, whatever follows, gives its data back.
pub proof fn law_generic_roundtrip(t: &TableGeneric, rest: Seq<u8>)
    ensures
        (t.bytes_spec() + rest).take(t.data@.len() as int) == t.data@,
        t.data@.len() <= (t.bytes_spec() + rest).len(),
{
    assert((t.bytes_spec() + rest).take(t.data@.len() as int) =~= t.data@);
}

impl FontTable for TableGeneric {
    /// The length of the data, truncated to 32 bits.
    open spec fn len_spec(&self) -> u32 {
        self.data@.len() as u32
    }

    fn len(&self) -> (r: u32) {
        self.data.len() as u32
    }
}

} // verus!
