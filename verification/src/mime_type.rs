//! Telling the MIME type of a font from the magic number it starts with.

use crate::byte_order::be_u32;
use crate::io::{Cursor, IoErrorKind};
use crate::magic::Magic;
use vstd::prelude::*;
use vstd::string::StringExecFns;

verus! {

/// The MIME types of fonts.
#[derive(Debug, Clone, Copy, PartialEq, Eq, Structural)]
pub enum FontMimeTypes {
    /// OpenType.
    OTF,
    /// TrueType.
    TTF,
    /// WOFF.
    WOFF,
    /// WOFF2.
    WOFF2,
}

impl FontMimeTypes {
    /// The MIME type as text.
    pub open spec fn spec_text(self) -> Seq<char> {
        match self {
            FontMimeTypes::OTF => "font/otf"@,
            FontMimeTypes::TTF => "font/ttf"@,
            FontMimeTypes::WOFF => "font/woff"@,
            FontMimeTypes::WOFF2 => "font/woff2"@,
        }
    }

    /// The MIME type as text: "font/otf", "font/ttf", "font/woff" or
    /// "font/woff2".
    pub fn to_string(&self) -> (r: String)
        ensures
            r@ == self.spec_text(),
    {
        match self {
            FontMimeTypes::OTF => String::from_str("font/otf"),
            FontMimeTypes::TTF => String::from_str("font/ttf"),
            FontMimeTypes::WOFF => String::from_str("font/woff"),
            FontMimeTypes::WOFF2 => String::from_str("font/woff2"),
        }
    }
}

/// A magic number and the MIME type of the fonts that start with it.
#[derive(Debug, Clone, Copy)]
pub struct MagicTypes {
    /// The magic number of the font format.
    pub magic: Magic,
    /// The MIME type of the format.
    pub mime_type: FontMimeTypes,
}

/// The MIME type of the fonts that start with the magic number `m`, if it
/// is one that a font file starts with: 'OTTO' and 1.0 are OpenType,
/// 'true' TrueType, 'wOFF' WOFF and 'wOF2' WOFF2.
pub open spec fn spec_mime_type(m: u32) -> Option<FontMimeTypes> {
    match Magic::spec_from_value(m) {
        Some(Magic::OpenType) => Some(FontMimeTypes::OTF),
        Some(Magic::TrueType) => Some(FontMimeTypes::OTF),
        Some(Magic::AppleTrue) => Some(FontMimeTypes::TTF),
        Some(Magic::Woff) => Some(FontMimeTypes::WOFF),
        Some(Magic::Woff2) => Some(FontMimeTypes::WOFF2),
        _ => None,
    }
}

impl MagicTypes {
    /// The known magic numbers of font files and their MIME types.
    pub fn known_types() -> (r: Vec<MagicTypes>)
        ensures
            r@.len() == 5,
            forall|i: int|
                0 <= i < r@.len() ==> spec_mime_type(#[trigger] r@[i].magic.spec_value()) == Some(
                    r@[i].mime_type,
                ),
            forall|m: u32|
                spec_mime_type(m) is Some ==> exists|i: int|
                    0 <= i < r@.len() && #[trigger] r@[i].magic.spec_value() == m,
    {
        let r = vec![
            MagicTypes { magic: Magic::OpenType, mime_type: FontMimeTypes::OTF },
            MagicTypes { magic: Magic::AppleTrue, mime_type: FontMimeTypes::TTF },
            MagicTypes { magic: Magic::TrueType, mime_type: FontMimeTypes::OTF },
            MagicTypes { magic: Magic::Woff, mime_type: FontMimeTypes::WOFF },
            MagicTypes { magic: Magic::Woff2, mime_type: FontMimeTypes::WOFF2 },
        ];
        proof {
            assert forall|m: u32| spec_mime_type(m) is Some implies exists|i: int|
                0 <= i < r@.len() && #[trigger] r@[i].magic.spec_value() == m by {
                if m == 0x4f54544f {
                    assert(r@[0].magic.spec_value() == m);
                } else if m == 0x74727565 {
                    assert(r@[1].magic.spec_value() == m);
                } else if m == 0x00010000 {
                    assert(r@[2].magic.spec_value() == m);
                } else if m == 0x774f4646 {
                    assert(r@[3].magic.spec_value() == m);
                } else {
                    assert(r@[4].magic.spec_value() == m);
                }
            }
        }
        r
    }
}

/// Why the MIME type of a stream could not be told.
#[derive(Debug, Clone, Copy, PartialEq, Eq, Structural)]
pub enum MimeTypeError {
    /// Reading the stream failed.
    IoError(IoErrorKind),
    /// The stream does not start with a known magic number.
    UnknownMagicType,
}

/// Telling the MIME type of a font stream.
pub trait FontMimeTypeGuesser {
    /// The error type for telling the MIME type.
    type Error;

    /// The MIME type of the font that starts at the stream's position.
    fn guess_mime_type(&mut self) -> Result<FontMimeTypes, Self::Error>;
}

impl FontMimeTypeGuesser for Cursor {
    type Error = MimeTypeError;

    /// Reads the magic number at the position, then moves back to the
    /// position; fails if fewer than four bytes are left (leaving the
    /// position at the end) or the number is not known.
    fn guess_mime_type(&mut self) -> (r: Result<FontMimeTypes, MimeTypeError>)
        ensures
            ({
                let rem = old(self)@.remaining();
                if rem.len() < 4 {
                    &&& r == Err::<FontMimeTypes, MimeTypeError>(
                        MimeTypeError::IoError(IoErrorKind::UnexpectedEof),
                    )
                    &&& final(self)@ == old(self)@.at(old(self)@.data.len() as int)
                } else {
                    &&& final(self)@ == old(self)@
                    &&& match spec_mime_type(be_u32(rem)) {
                        Some(t) => r == Ok::<FontMimeTypes, MimeTypeError>(t),
                        None => r == Err::<FontMimeTypes, MimeTypeError>(
                            MimeTypeError::UnknownMagicType,
                        ),
                    }
                }
            }),
    {
        let current_position = self.position();
        let magic = match self.read_u32_be() {
            Ok(m) => m,
            Err(e) => return Err(MimeTypeError::IoError(e)),
        };
        self.set_position(current_position);
        let known = MagicTypes::known_types();
        let mut i: usize = 0;
        while i < known.len()
            invariant
                i <= known@.len(),
                known@.len() == 5,
                forall|j: int|
                    0 <= j < known@.len() ==> spec_mime_type(#[trigger] known@[j].magic.spec_value())
                        == Some(known@[j].mime_type),
                forall|m: u32|
                    spec_mime_type(m) is Some ==> exists|j: int|
                        0 <= j < known@.len() && #[trigger] known@[j].magic.spec_value() == m,
                forall|j: int| 0 <= j < i ==> #[trigger] known@[j].magic.spec_value() != magic,
                old(self)@.remaining().len() >= 4,
                magic == be_u32(old(self)@.remaining()),
                self@ == old(self)@,
            decreases known@.len() - i,
        {
            if known[i].magic.value() == magic {
                return Ok(known[i].mime_type);
            }
            i = i + 1;
        }
        Err(MimeTypeError::UnknownMagicType)
    }
}

} // verus!
