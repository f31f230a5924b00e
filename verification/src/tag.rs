//! Font table tags.

use crate::byte_order::be_u32;
use crate::error::FontIoError;
use crate::io::{Cursor, IoErrorKind};
use crate::{FontDataExactRead, FontDataRead, FontDataWrite};
use crate::text::{string_from_utf8_lossy, utf8_lossy};
use vstd::prelude::*;
use vstd::string::StringExecFns;

verus! {

/// Four-character tag which names a font table.
#[derive(Debug, Clone, Copy, PartialEq, Eq, Hash, PartialOrd, Ord)]
pub struct FontTag {
    /// The four-character tag data.
    pub data: [u8; 4],
}

impl View for FontTag {
    type V = Seq<u8>;

    open spec fn view(&self) -> Seq<u8> {
        self.data@
    }
}

/// The bytes of the tag of the digital signature table, "DSIG".
pub open spec fn dsig_tag_bytes() -> Seq<u8> {
    seq![0x44u8, 0x53u8, 0x49u8, 0x47u8]
}

/// The bytes of the tag of the font header table, "head".
pub open spec fn head_tag_bytes() -> Seq<u8> {
    seq![0x68u8, 0x65u8, 0x61u8, 0x64u8]
}

/// The bytes of the tag of the content credential table, "C2PA".
pub open spec fn c2pa_tag_bytes() -> Seq<u8> {
    seq![0x43u8, 0x32u8, 0x50u8, 0x41u8]
}

/// The tag of the digital signature table.
pub open spec fn dsig_tag() -> FontTag {
    FontTag { data: [0x44u8, 0x53u8, 0x49u8, 0x47u8] }
}

/// The tag of the font header table.
pub open spec fn head_tag() -> FontTag {
    FontTag { data: [0x68u8, 0x65u8, 0x61u8, 0x64u8] }
}

/// The tag of the content credential table.
pub open spec fn c2pa_tag() -> FontTag {
    FontTag { data: [0x43u8, 0x32u8, 0x50u8, 0x41u8] }
}

/// Two tags have the same key exactly when they hold the same bytes.
pub proof fn lemma_key_injective(a: FontTag, b: FontTag)
    ensures
        (a.spec_key() == b.spec_key()) <==> (a@ == b@),
{
    crate::byte_order::lemma_u32_roundtrip(0, a@);
    crate::byte_order::lemma_u32_roundtrip(0, b@);
}

impl FontTag {
    /// The size of a tag in bytes.
    pub const SIZE: usize = 4;

    /// The number that the tag's bytes make, most significant first. Tags
    /// order as these numbers do.
    pub open spec fn spec_key(self) -> u32 {
        be_u32(self@)
    }

    /// Creates a tag from four bytes.
    pub fn new(source_data: [u8; 4]) -> (r: Self)
        ensures
            r@ == source_data@,
    {
        Self { data: source_data }
    }

    /// Returns the four bytes of the tag.
    pub fn data(&self) -> (r: [u8; 4])
        ensures
            r@ == self@,
    {
        self.data
    }

    /// The tag of the digital signature table.
    pub fn dsig() -> (r: FontTag)
        ensures
            r@ == dsig_tag_bytes(),
            r == dsig_tag(),
    {
        let r = FontTag { data: [0x44u8, 0x53u8, 0x49u8, 0x47u8] };
        assert(r@ =~= dsig_tag_bytes());
        r
    }

    /// The tag of the font header table.
    pub fn head() -> (r: FontTag)
        ensures
            r@ == head_tag_bytes(),
            r == head_tag(),
    {
        let r = FontTag { data: [0x68u8, 0x65u8, 0x61u8, 0x64u8] };
        assert(r@ =~= head_tag_bytes());
        r
    }

    /// The tag of the content credential table.
    pub fn c2pa() -> (r: FontTag)
        ensures
            r@ == c2pa_tag_bytes(),
            r == c2pa_tag(),
    {
        let r = FontTag { data: [0x43u8, 0x32u8, 0x50u8, 0x41u8] };
        assert(r@ =~= c2pa_tag_bytes());
        r
    }

    /// Whether two tags hold the same bytes.
    pub fn same(&self, other: &FontTag) -> (r: bool)
        ensures
            r == (self@ == other@),
    {
        let r = self.data[0] == other.data[0] && self.data[1] == other.data[1] && self.data[2]
            == other.data[2] && self.data[3] == other.data[3];
        proof {
            if r {
                assert(self@ =~= other@);
            }
        }
        r
    }

    /// The tag as text: its bytes as UTF-8, invalid sequences replaced.
    pub fn to_string(&self) -> (r: String)
        ensures
            r@ == utf8_lossy(self@),
    {
        string_from_utf8_lossy(&self.data)
    }

    /// The debugging text of the tag: "FontTag(" and the tag as text, then
    /// ")".
    pub fn debug_string(&self) -> (r: String)
        ensures
            r@ == "FontTag("@ + utf8_lossy(self@) + ")"@,
    {
        let mut s = String::from_str("FontTag(");
        let text = string_from_utf8_lossy(&self.data);
        s.append(text.as_str());
        s.append(")");
        s
    }

    /// The number that the tag's bytes make, most significant first.
    pub fn key(&self) -> (r: u32)
        ensures
            r == self.spec_key(),
    {
        self.data[0] as u32 * 0x1000000 + self.data[1] as u32 * 0x10000 + self.data[2] as u32
            * 0x100 + self.data[3] as u32
    }
}

impl FontDataRead for FontTag {
    type Error = FontIoError;

    /// Reads four bytes as a tag.
    fn from_reader(reader: &mut Cursor) -> (r: Result<Self, FontIoError>)
        ensures
            match r {
                Ok(t) => {
                    &&& 4 <= old(reader)@.remaining().len()
                    &&& t@ == old(reader)@.remaining().take(4)
                    &&& final(reader)@ == old(reader)@.at(old(reader)@.pos + 4)
                },
                Err(e) => {
                    &&& e == FontIoError::IoError(IoErrorKind::UnexpectedEof)
                    &&& old(reader)@.remaining().len() < 4
                },
            },
    {
        match reader.read_exact(Self::SIZE) {
            Ok(bytes) => {
                let t = Self::new([bytes[0], bytes[1], bytes[2], bytes[3]]);
                assert(t@ =~= bytes@);
                Ok(t)
            },
            Err(e) => Err(FontIoError::IoError(e)),
        }
    }
}

impl FontDataExactRead for FontTag {
    type Error = FontIoError;

    /// Reads a tag at `offset`; `size` must be that of a tag.
    fn from_reader_exact(reader: &mut Cursor, offset: usize, size: usize) -> (r: Result<
        Self,
        FontIoError,
    >)
        ensures
            size != 4 ==> r == Err::<FontTag, FontIoError>(FontIoError::InvalidSizeForTAG(size)),
            size == 4 ==> match r {
                Ok(t) => {
                    &&& 4 <= old(reader)@.at(offset as int).remaining().len()
                    &&& t@ == old(reader)@.at(offset as int).remaining().take(4)
                },
                Err(e) => {
                    &&& e == FontIoError::IoError(IoErrorKind::UnexpectedEof)
                    &&& old(reader)@.at(offset as int).remaining().len() < 4
                },
            },
    {
        if size != Self::SIZE {
            return Err(FontIoError::InvalidSizeForTAG(size));
        }
        reader.set_position(offset);
        Self::from_reader(reader)
    }
}

impl FontDataWrite for FontTag {
    type Error = FontIoError;

    open spec fn bytes_spec(&self) -> Seq<u8> {
        self@
    }

    /// Writes the four bytes of the tag.
    fn write(&self, dest: &mut Cursor) -> (r: Result<(), FontIoError>)
        ensures
            r matches Err(e) ==> e == FontIoError::IoError(IoErrorKind::WriteZero),
    {
        match dest.write_all(&self.data) {
            Ok(()) => Ok(()),
            Err(e) => Err(FontIoError::IoError(e)),
        }
    }
}

} // verus!
