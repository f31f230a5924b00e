//! Raw data of a font part, kept as bytes.

use crate::error::FontIoError;
use crate::io::{lemma_write_concat, zeros, Cursor, IoErrorKind, StreamState};
use crate::sfnt::table::generic::pad_len;
use crate::utils::{checksum, spec_checksum};
use crate::{FontDataChecksum, FontDataExactRead, FontDataWrite, FontTable};
use vstd::prelude::*;

verus! {

broadcast use crate::io::lemma_cursor_wf;

/// Raw data of a font part.
#[derive(Debug)]
pub struct Data {
    /// The data.
    pub data: Vec<u8>,
}

impl Default for Data {
    /// No data.
    fn default() -> (r: Self)
        ensures
            r.data@ == Seq::<u8>::empty(),
    {
        Data { data: Vec::new() }
    }
}

impl Data {
    /// A record of the given data.
    pub fn new(data: Vec<u8>) -> (r: Self)
        ensures
            r.data == data,
    {
        Data { data }
    }

    /// Replaces the data.
    pub fn set_data(&mut self, data: Vec<u8>)
        ensures
            final(self).data == data,
    {
        self.data = data;
    }

    /// The data.
    pub fn data(&self) -> (r: &[u8])
        ensures
            r@ == self.data@,
    {
        self.data.as_slice()
    }
}

impl FontDataExactRead for Data {
    type Error = FontIoError;

    /// Reads `size` bytes at `offset`.
    fn from_reader_exact(reader: &mut Cursor, offset: usize, size: usize) -> (r: Result<
        Self,
        FontIoError,
    >)
        ensures
            ({
                let rem = old(reader)@.at(offset as int).remaining();
                &&& size <= rem.len() ==> (r matches Ok(t) && t.data@ == rem.take(size as int))
                &&& size > rem.len() ==> r == Err::<Data, FontIoError>(
                    FontIoError::IoError(IoErrorKind::UnexpectedEof),
                )
            }),
    {
        reader.set_position(offset);
        match reader.read_exact(size) {
            Ok(data) => Ok(Data { data }),
            Err(e) => Err(FontIoError::IoError(e)),
        }
    }
}

impl FontDataWrite for Data {
    type Error = FontIoError;

    /// The data, padded with zero bytes to a multiple of four.
    open spec fn bytes_spec(&self) -> Seq<u8> {
        self.data@ + zeros(pad_len(self.data@.len()))
    }

    /// Writes the data, then the zero bytes that pad it to a multiple of
    /// four.
    fn write(&self, dest: &mut Cursor) -> (r: Result<(), FontIoError>)
        ensures
            r matches Err(e) ==> e == FontIoError::FailedToWriteFontData(IoErrorKind::WriteZero),
    {
        let ghost s = dest@;
        let ghost pad = zeros(pad_len(self.data@.len()));
        proof {
            lemma_write_concat(s, self.data@, pad);
        }
        if let Err(e) = dest.write_all(self.data.as_slice()) {
            return Err(FontIoError::FailedToWriteFontData(e));
        }
        let limit = self.data.len() % 4;
        if limit > 0 {
            let mut padding: Vec<u8> = Vec::new();
            let mut i: usize = 0;
            while i < 4 - limit
                invariant
                    0 < limit < 4,
                    i <= 4 - limit,
                    padding@ == zeros(i as nat),
                decreases 4 - limit - i,
            {
                padding.push(0);
                i = i + 1;
                assert(padding@ =~= zeros(i as nat));
            }
            assert(padding@ =~= pad);
            if let Err(e) = dest.write_all(padding.as_slice()) {
                return Err(FontIoError::FailedToWriteFontData(e));
            }
        } else {
            assert(self.data@ + pad =~= self.data@);
        }
        Ok(())
    }
}

impl FontDataChecksum for Data {
    open spec fn checksum_spec(&self) -> u32 {
        spec_checksum(self.data@)
    }

    /// The checksum of the data.
    fn checksum(&self) -> (r: u32) {
        checksum(self.data.as_slice())
    }
}

impl FontTable for Data {
    /// The length of the data, truncated to 32 bits.
    open spec fn len_spec(&self) -> u32 {
        self.data@.len() as u32
    }

    fn len(&self) -> (r: u32) {
        self.data.len() as u32
    }
}

} // verus!
