//! Thumbnails of fonts: what a rendered thumbnail holds, the settings of
//! the SVG renderer, and the text handling that rendering relies on.

use crate::io::IoErrorKind;
use crate::mime_type::{FontMimeTypes, MimeTypeError};
use vstd::prelude::*;
use vstd::string::{StrSliceExecFns, StringExecFns};

verus! {

/// A rendered thumbnail: its bytes and their MIME type.
#[derive(Debug, Clone)]
pub struct Thumbnail {
    /// The bytes of the thumbnail.
    pub data: Vec<u8>,
    /// The MIME type of the thumbnail.
    pub mime_type: String,
}

impl Thumbnail {
    /// A thumbnail of the given bytes and MIME type.
    pub fn new(data: Vec<u8>, mime_type: String) -> (r: Self)
        ensures
            r.data == data,
            r.mime_type == mime_type,
    {
        Self { data, mime_type }
    }

    /// The bytes of the thumbnail.
    pub fn data(&self) -> (r: &[u8])
        ensures
            r@ == self.data@,
    {
        self.data.as_slice()
    }

    /// The MIME type of the thumbnail.
    pub fn mime_type(&self) -> (r: &str)
        ensures
            r@ == self.mime_type@,
    {
        self.mime_type.as_str()
    }
}

/// Why a thumbnail could not be made.
#[derive(Debug)]
pub enum FontThumbnailError {
    /// Reading or writing a stream failed.
    IoError(IoErrorKind),
    /// No font was found.
    NoFontFound,
    /// The font has no full name.
    NoFullNameFound,
    /// The buffer size is invalid.
    InvalidBufferSize,
    /// A rectangle could not be made from the given values.
    InvalidRect,
    /// No point size lets the text fit the width.
    FailedToFindAppropriateSize,
    /// A pixmap could not be made.
    FailedToCreatePixmap,
    /// A pixel could not be read from the image.
    FailedToGetPixel {
        /// The column of the pixel.
        x: u32,
        /// The row of the pixel.
        y: u32,
    },
    /// An SVG tree could not be made from the text.
    FailedToCreateSvgTree(String),
    /// The MIME type of the font could not be guessed.
    MimeType(MimeTypeError),
    /// Thumbnails cannot be made of fonts of this MIME type.
    UnsupportedInputMimeType,
}

/// Checks that thumbnails can be made of fonts of the MIME type `mime`:
/// they can of OpenType and TrueType fonts only.
pub fn check_thumbnail_input(mime: FontMimeTypes) -> (r: Result<FontMimeTypes, FontThumbnailError>)
    ensures
        mime == FontMimeTypes::OTF || mime == FontMimeTypes::TTF ==> (r matches Ok(m) && m == mime),
        !(mime == FontMimeTypes::OTF || mime == FontMimeTypes::TTF) ==> r matches Err(
            FontThumbnailError::UnsupportedInputMimeType,
        ),
{
    match mime {
        FontMimeTypes::OTF | FontMimeTypes::TTF => Ok(mime),
        _ => Err(FontThumbnailError::UnsupportedInputMimeType),
    }
}

/// The settings of the SVG thumbnail renderer.
#[derive(Clone, Debug)]
pub struct SvgThumbnailRendererConfig {
    /// The number of decimal places that SVG coordinates are rounded to.
    pub default_precision: u32,
    /// The fill color of the glyphs.
    pub glyph_fill_color: String,
}

impl SvgThumbnailRendererConfig {
    /// The number of decimal places that SVG coordinates are rounded to
    /// when none is given.
    pub const DEFAULT_SVG_PRECISION: u32 = 2;
    /// The fill color of the glyphs when none is given.
    pub const SVG_GLYPH_FILL_COLOR: &'static str = "black";

    /// Settings with the given precision and fill color.
    pub fn new(default_precision: u32, glyph_fill_color: String) -> (r: Self)
        ensures
            r.default_precision == default_precision,
            r.glyph_fill_color == glyph_fill_color,
    {
        Self { default_precision, glyph_fill_color }
    }
}

impl Default for SvgThumbnailRendererConfig {
    /// Two decimal places, black glyphs.
    fn default() -> (r: Self)
        ensures
            r.default_precision == 2,
            r.glyph_fill_color@ == "black"@,
    {
        Self::new(Self::DEFAULT_SVG_PRECISION, String::from_str(Self::SVG_GLYPH_FILL_COLOR))
    }
}

/// Renders thumbnails as SVG documents.
#[derive(Clone, Debug)]
pub struct SvgThumbnailRenderer {
    /// The settings of the renderer.
    pub config: SvgThumbnailRendererConfig,
}

impl SvgThumbnailRenderer {
    /// The MIME type of the thumbnails that the renderer makes.
    pub const MIME_TYPE: &'static str = "image/svg+xml";

    /// A renderer with the given settings.
    pub fn new(config: SvgThumbnailRendererConfig) -> (r: Self)
        ensures
            r.config == config,
    {
        Self { config }
    }
}

impl Default for SvgThumbnailRenderer {
    /// A renderer with the default settings.
    fn default() -> (r: Self)
        ensures
            r.config.default_precision == 2,
            r.config.glyph_fill_color@ == "black"@,
    {
        Self::new(SvgThumbnailRendererConfig::default())
    }
}

/// One record of a font's 'name' table: which name it holds, and for which
/// platform, encoding and language.
#[derive(Clone, Copy, Debug)]
pub struct NameRecord {
    /// The name that the record holds (full name, sample text, ...).
    pub name_id: u16,
    /// The platform of the record.
    pub platform_id: u16,
    /// The encoding of the record.
    pub encoding_id: u16,
    /// The language of the record.
    pub language_id: u16,
}

/// The 'name' table's number of the Unicode platform.
pub const PLATFORM_UNICODE: u16 = 0u16;
/// The 'name' table's number of the Windows platform.
pub const PLATFORM_WINDOWS: u16 = 3u16;
/// The language code of US English.
pub const US_EN_LANGUAGE_ID: u16 = 0x0409u16;
/// The Unicode platform's encoding of the Basic Multilingual Plane.
pub const UNICODE_BMP_ENCODING: u16 = 3u16;
/// The Windows platform's symbol encoding.
pub const WINDOWS_SYMBOL_ENCODING: u16 = 0u16;
/// The Windows platform's encoding of the Basic Multilingual Plane.
pub const WINDOWS_BMP_ENCODING: u16 = 1u16;

/// The (platform, language, encoding) combinations that a name is looked
/// for in, most preferred first.
pub open spec fn name_preferences() -> Seq<(u16, u16, u16)> {
    seq![
        (PLATFORM_UNICODE, US_EN_LANGUAGE_ID, UNICODE_BMP_ENCODING),
        (PLATFORM_WINDOWS, US_EN_LANGUAGE_ID, WINDOWS_SYMBOL_ENCODING),
        (PLATFORM_WINDOWS, US_EN_LANGUAGE_ID, WINDOWS_BMP_ENCODING),
    ]
}

/// Whether a record holds the name `name_id` for the platform, language
/// and encoding of `pref`.
pub open spec fn name_matches(r: NameRecord, name_id: u16, pref: (u16, u16, u16)) -> bool {
    &&& r.name_id == name_id
    &&& r.platform_id == pref.0
    &&& r.language_id == pref.1
    &&& r.encoding_id == pref.2
}

/// Whether some record holds the name `name_id` for `pref`.
pub open spec fn some_name_matches(records: Seq<NameRecord>, name_id: u16, pref: (u16, u16, u16)) -> bool {
    exists|j: int| 0 <= j < records.len() && #[trigger] name_matches(records[j], name_id, pref)
}

/// The record that a name is read from: the first record that holds it in
/// the most preferred combination of platform, language and encoding that
/// any record holds it in; `None` when no record holds it in any of them.
pub fn find_preferred_name(records: &[NameRecord], name_id: u16) -> (r: Option<usize>)
    ensures
        r is None ==> forall|k: int|
            0 <= k < 3 ==> !some_name_matches(records@, name_id, #[trigger] name_preferences()[k]),
        r matches Some(i) ==> exists|k: int|
            0 <= k < 3 && {
                &&& i < records@.len()
                &&& name_matches(records@[i as int], name_id, #[trigger] name_preferences()[k])
                &&& forall|j: int| 0 <= j < i ==> !name_matches(records@[j], name_id, name_preferences()[k])
                &&& forall|k2: int| 0 <= k2 < k ==> !some_name_matches(records@, name_id, #[trigger] name_preferences()[k2])
            },
{
    let prefs: [(u16, u16, u16); 3] = [
        (PLATFORM_UNICODE, US_EN_LANGUAGE_ID, UNICODE_BMP_ENCODING),
        (PLATFORM_WINDOWS, US_EN_LANGUAGE_ID, WINDOWS_SYMBOL_ENCODING),
        (PLATFORM_WINDOWS, US_EN_LANGUAGE_ID, WINDOWS_BMP_ENCODING),
    ];
    assert(prefs@ =~= name_preferences());
    let mut k: usize = 0;
    while k < 3
        invariant
            k <= 3,
            prefs@ == name_preferences(),
            forall|k2: int| 0 <= k2 < k ==> !some_name_matches(records@, name_id, #[trigger] name_preferences()[k2]),
        decreases 3 - k,
    {
        let pref = prefs[k];
        let mut i: usize = 0;
        while i < records.len()
            invariant
                k < 3,
                i <= records@.len(),
                pref == name_preferences()[k as int],
                forall|j: int| 0 <= j < i ==> !name_matches(records@[j], name_id, pref),
                forall|k2: int| 0 <= k2 < k ==> !some_name_matches(records@, name_id, #[trigger] name_preferences()[k2]),
            decreases records@.len() - i,
        {
            let rec = records[i];
            if rec.name_id == name_id && rec.platform_id == pref.0 && rec.language_id == pref.1
                && rec.encoding_id == pref.2 {
                assert(name_matches(records@[i as int], name_id, name_preferences()[k as int]));
                assert(forall|j: int| 0 <= j < i ==> !name_matches(records@[j], name_id, name_preferences()[k as int]));
                return Some(i);
            }
            i = i + 1;
        }
        assert(!some_name_matches(records@, name_id, name_preferences()[k as int]));
        k = k + 1;
    }
    None
}

/// The text with its last three characters replaced by an ellipsis when it
/// has more than three; the text unchanged otherwise.
pub fn clip_text_to_ellipsis(text: &str) -> (r: String)
    ensures
        text@.len() > 3 ==> r@ == text@.take(text@.len() - 3) + "..."@,
        text@.len() <= 3 ==> r@ == text@,
{
    let char_count = text.unicode_len();
    if char_count > 3 {
        let mut clipped = String::from_str(text.substring_char(0, char_count - 3));
        clipped.append("...");
        clipped
    } else {
        String::from_str(text)
    }
}

} // verus!
