//! The 'C2PA' SFNT table, which holds a font's content credential.

use crate::byte_order::{be16_at, be32_at, lemma_u16_roundtrip, lemma_u32_bytes_of_pair, lemma_u32_roundtrip, push_u16_be, push_u32_be, u16_at, u16_bytes, u32_at, u32_bytes};
use crate::c2pa::{
    opt_chars, opt_seq, UpdatableC2PA, UpdateContentCredentialRecord, UpdateType,
    DEFAULT_MAJOR_VERSION, DEFAULT_MINOR_VERSION,
};
use crate::error::FontIoError;
use crate::io::{lemma_write_concat, Cursor, IoErrorKind, StreamState};
use crate::sfnt::table::head::pair;
use crate::tag::{c2pa_tag_bytes, FontTag};
use crate::utils::{
    add32, checksum, checksum_biased, lemma_checksum_concat, lemma_checksum_concat_biased,
    lemma_checksum_words, spec_checksum, string_from_utf8, sum_words, wrapping_add32, u32_from_u16_pair, words_bytes,
    words_sum,
};
use crate::{FontDataChecksum, FontDataExactRead, FontDataRead, FontDataWrite, FontTable};
use vstd::prelude::*;
use vstd::utf8::{decode_utf8, encode_utf8, valid_utf8};

verus! {

broadcast use crate::io::lemma_cursor_wf;

/// The fixed part of a 'C2PA' table: versions, and where the URI of the
/// active manifest and the manifest store lie within the table.
#[derive(Debug, Clone, Copy)]
#[allow(non_snake_case)]
pub struct TableC2PARaw {
    /// The major version of the table.
    pub majorVersion: u16,
    /// The minor version of the table.
    pub minorVersion: u16,
    /// Offset from the start of the table to the URI of the active
    /// manifest; 0 when there is none.
    pub activeManifestUriOffset: u32,
    /// Length of the URI in bytes.
    pub activeManifestUriLength: u16,
    /// Reserved.
    pub reserved: u16,
    /// Offset from the start of the table to the manifest store; 0 when
    /// there is none.
    pub manifestStoreOffset: u32,
    /// Length of the manifest store in bytes.
    pub manifestStoreLength: u32,
}

/// The fixed part of a 'C2PA' table that the first 20 bytes of `s` hold.
pub open spec fn spec_parse_raw(s: Seq<u8>) -> TableC2PARaw {
    TableC2PARaw {
        majorVersion: be16_at(s, 0),
        minorVersion: be16_at(s, 2),
        activeManifestUriOffset: be32_at(s, 4),
        activeManifestUriLength: be16_at(s, 8),
        reserved: be16_at(s, 10),
        manifestStoreOffset: be32_at(s, 12),
        manifestStoreLength: be32_at(s, 16),
    }
}

impl TableC2PARaw {
    /// The size of the fixed part of a 'C2PA' table.
    pub const MINIMUM_SIZE: usize = 20;

    /// The five words of the fixed part, big-endian.
    pub open spec fn spec_words(self) -> Seq<u32> {
        seq![
            pair(self.majorVersion, self.minorVersion),
            self.activeManifestUriOffset,
            pair(self.activeManifestUriLength, self.reserved),
            self.manifestStoreOffset,
            self.manifestStoreLength,
        ]
    }

    /// The bytes of the fixed part: each field big-endian, in order.
    pub open spec fn spec_bytes(self) -> Seq<u8> {
        u16_bytes(self.majorVersion) + u16_bytes(self.minorVersion) + u32_bytes(
            self.activeManifestUriOffset,
        ) + u16_bytes(self.activeManifestUriLength) + u16_bytes(self.reserved) + u32_bytes(
            self.manifestStoreOffset,
        ) + u32_bytes(self.manifestStoreLength)
    }

    /// The fixed part that describes `c2pa`: the URI right after the fixed
    /// part and the store right after the URI; lengths and offsets are
    /// truncated to their fields.
    pub fn from_table(c2pa: &TableC2PA) -> (r: Result<Self, FontIoError>)
        ensures
            r == Ok::<TableC2PARaw, FontIoError>(c2pa.spec_raw()),
    {
        let uri_len: usize = match &c2pa.active_manifest_uri {
            Some(uri) => uri.as_str().as_bytes().len(),
            None => 0,
        };
        Ok(
            Self {
                majorVersion: c2pa.major_version,
                minorVersion: c2pa.minor_version,
                activeManifestUriOffset: if c2pa.active_manifest_uri.is_some() {
                    Self::MINIMUM_SIZE as u32
                } else {
                    0
                },
                activeManifestUriLength: if c2pa.active_manifest_uri.is_some() {
                    uri_len as u16
                } else {
                    0
                },
                reserved: 0,
                manifestStoreOffset: if c2pa.manifest_store.is_some() {
                    (Self::MINIMUM_SIZE as u32).wrapping_add(uri_len as u32)
                } else {
                    0
                },
                manifestStoreLength: match &c2pa.manifest_store {
                    Some(store) => store.len() as u32,
                    None => 0,
                },
            },
        )
    }

    /// Builds the bytes of the fixed part.
    fn to_bytes(&self) -> (r: Vec<u8>)
        ensures
            r@ == self.spec_bytes(),
    {
        let mut buf: Vec<u8> = Vec::new();
        push_u16_be(&mut buf, self.majorVersion);
        push_u16_be(&mut buf, self.minorVersion);
        push_u32_be(&mut buf, self.activeManifestUriOffset);
        push_u16_be(&mut buf, self.activeManifestUriLength);
        push_u16_be(&mut buf, self.reserved);
        push_u32_be(&mut buf, self.manifestStoreOffset);
        push_u32_be(&mut buf, self.manifestStoreLength);
        assert(buf@ =~= self.spec_bytes());
        buf
    }

    /// Reads the fixed part from the first 20 bytes of `w`.
    fn parse(w: &[u8]) -> (r: Self)
        requires
            w@.len() >= 20,
        ensures
            r == spec_parse_raw(w@),
    {
        Self {
            majorVersion: u16_at(w, 0),
            minorVersion: u16_at(w, 2),
            activeManifestUriOffset: u32_at(w, 4),
            activeManifestUriLength: u16_at(w, 8),
            reserved: u16_at(w, 10),
            manifestStoreOffset: u32_at(w, 12),
            manifestStoreLength: u32_at(w, 16),
        }
    }
}

/// The bytes of the fixed part are those of its five words, and its
/// checksum is their sum.
pub proof fn lemma_raw_bytes_are_words(raw: TableC2PARaw)
    ensures
        raw.spec_bytes() == words_bytes(raw.spec_words()),
        raw.spec_bytes().len() == 20,
        spec_checksum(raw.spec_bytes()) == words_sum(raw.spec_words()),
{
    let ws = raw.spec_words();
    lemma_u32_bytes_of_pair(raw.majorVersion, raw.minorVersion);
    lemma_u32_bytes_of_pair(raw.activeManifestUriLength, raw.reserved);
    lemma_u16_roundtrip(raw.majorVersion, seq![0u8, 0u8]);
    lemma_u16_roundtrip(raw.minorVersion, seq![0u8, 0u8]);
    lemma_u16_roundtrip(raw.activeManifestUriLength, seq![0u8, 0u8]);
    lemma_u16_roundtrip(raw.reserved, seq![0u8, 0u8]);
    lemma_u32_roundtrip(raw.activeManifestUriOffset, seq![0u8, 0u8, 0u8, 0u8]);
    lemma_u32_roundtrip(raw.manifestStoreOffset, seq![0u8, 0u8, 0u8, 0u8]);
    lemma_u32_roundtrip(raw.manifestStoreLength, seq![0u8, 0u8, 0u8, 0u8]);
    reveal_with_fuel(words_bytes, 6);
    assert(ws.drop_last().drop_last().drop_last().drop_last().drop_last() =~= Seq::<u32>::empty());
    assert(ws.drop_last().drop_last().drop_last().drop_last() =~= seq![ws[0]]);
    assert(ws.drop_last().drop_last().drop_last() =~= seq![ws[0], ws[1]]);
    assert(ws.drop_last().drop_last() =~= seq![ws[0], ws[1], ws[2]]);
    assert(ws.drop_last() =~= seq![ws[0], ws[1], ws[2], ws[3]]);
    assert(words_bytes(ws) =~= raw.spec_bytes());
    lemma_checksum_words(ws);
}

/// The twenty bytes of the fixed part hold, big-endian as the C2PA font
/// table lays them out, the major and minor version at offsets 0 and 2,
/// the URI's offset at 4 and length at 8, the reserved field at 10, and the
/// store's offset at 12 and length at 16.
pub proof fn law_raw_fields_at(raw: TableC2PARaw)
    ensures
        raw.spec_bytes().len() == 20,
        be16_at(raw.spec_bytes(), 0) == raw.majorVersion,
        be16_at(raw.spec_bytes(), 2) == raw.minorVersion,
        be32_at(raw.spec_bytes(), 4) == raw.activeManifestUriOffset,
        be16_at(raw.spec_bytes(), 8) == raw.activeManifestUriLength,
        be16_at(raw.spec_bytes(), 10) == raw.reserved,
        be32_at(raw.spec_bytes(), 12) == raw.manifestStoreOffset,
        be32_at(raw.spec_bytes(), 16) == raw.manifestStoreLength,
{
    lemma_raw_roundtrip(raw, Seq::empty());
    assert(raw.spec_bytes() + Seq::<u8>::empty() =~= raw.spec_bytes());
}

/// Reading the bytes of the fixed part, whatever follows them, gives it
/// back.
pub proof fn lemma_raw_roundtrip(raw: TableC2PARaw, rest: Seq<u8>)
    ensures
        spec_parse_raw(raw.spec_bytes() + rest) == raw,
{
    let s = raw.spec_bytes() + rest;
    lemma_u16_roundtrip(raw.majorVersion, seq![0u8, 0u8]);
    lemma_u16_roundtrip(raw.minorVersion, seq![0u8, 0u8]);
    lemma_u16_roundtrip(raw.activeManifestUriLength, seq![0u8, 0u8]);
    lemma_u16_roundtrip(raw.reserved, seq![0u8, 0u8]);
    lemma_u32_roundtrip(raw.activeManifestUriOffset, seq![0u8, 0u8, 0u8, 0u8]);
    lemma_u32_roundtrip(raw.manifestStoreOffset, seq![0u8, 0u8, 0u8, 0u8]);
    lemma_u32_roundtrip(raw.manifestStoreLength, seq![0u8, 0u8, 0u8, 0u8]);
    assert(s.subrange(0, 2) =~= u16_bytes(raw.majorVersion));
    assert(s.subrange(2, 4) =~= u16_bytes(raw.minorVersion));
    assert(s.subrange(4, 8) =~= u32_bytes(raw.activeManifestUriOffset));
    assert(s.subrange(8, 10) =~= u16_bytes(raw.activeManifestUriLength));
    assert(s.subrange(10, 12) =~= u16_bytes(raw.reserved));
    assert(s.subrange(12, 16) =~= u32_bytes(raw.manifestStoreOffset));
    assert(s.subrange(16, 20) =~= u32_bytes(raw.manifestStoreLength));
}

impl FontDataRead for TableC2PARaw {
    type Error = FontIoError;

    /// Reads the fixed part at the position.
    fn from_reader(reader: &mut Cursor) -> (r: Result<Self, FontIoError>)
        ensures
            old(reader)@.remaining().len() >= 20 ==> r == Ok::<TableC2PARaw, FontIoError>(
                spec_parse_raw(old(reader)@.remaining()),
            ),
            old(reader)@.remaining().len() < 20 ==> r == Err::<TableC2PARaw, FontIoError>(
                FontIoError::IoError(IoErrorKind::UnexpectedEof),
            ),
    {
        match reader.read_exact(Self::MINIMUM_SIZE) {
            Ok(bytes) => {
                let raw = Self::parse(bytes.as_slice());
                proof {
                    let rem = old(reader)@.remaining();
                    assert(bytes@ =~= rem.take(20));
                    assert forall|i: int, j: int| 0 <= i <= j <= 20 implies bytes@.subrange(i, j)
                        == rem.subrange(i, j) by {
                        assert(bytes@.subrange(i, j) =~= rem.subrange(i, j));
                    }
                }
                Ok(raw)
            },
            Err(e) => Err(FontIoError::IoError(e)),
        }
    }
}

impl FontDataWrite for TableC2PARaw {
    type Error = FontIoError;

    open spec fn bytes_spec(&self) -> Seq<u8> {
        self.spec_bytes()
    }

    /// Writes the fixed part.
    fn write(&self, dest: &mut Cursor) -> (r: Result<(), FontIoError>)
        ensures
            r matches Err(e) ==> e == FontIoError::IoError(IoErrorKind::WriteZero),
    {
        let bytes = self.to_bytes();
        match dest.write_all(bytes.as_slice()) {
            Ok(()) => Ok(()),
            Err(e) => Err(FontIoError::IoError(e)),
        }
    }
}

impl FontDataChecksum for TableC2PARaw {
    open spec fn checksum_spec(&self) -> u32 {
        words_sum(self.spec_words())
    }

    /// The wrapping sum of the five words of the fixed part.
    fn checksum(&self) -> (r: u32) {
        let w0 = u32_from_u16_pair(self.majorVersion, self.minorVersion);
        let w2 = u32_from_u16_pair(self.activeManifestUriLength, self.reserved);
        let words: Vec<u32> = vec![
            w0,
            self.activeManifestUriOffset,
            w2,
            self.manifestStoreOffset,
            self.manifestStoreLength,
        ];
        assert(words@ =~= self.spec_words());
        sum_words(&words)
    }
}

impl FontTable for TableC2PARaw {
    open spec fn len_spec(&self) -> u32 {
        20
    }

    /// The size of the fixed part.
    fn len(&self) -> (r: u32) {
        Self::MINIMUM_SIZE as u32
    }
}

/// A 'C2PA' table with its URI and manifest store loaded.
#[derive(Clone, Debug)]
pub struct TableC2PA {
    /// The major version of the table.
    pub major_version: u16,
    /// The minor version of the table.
    pub minor_version: u16,
    /// The URI of the active manifest.
    pub active_manifest_uri: Option<String>,
    /// The manifest store.
    pub manifest_store: Option<Vec<u8>>,
}

/// What a table holds: its versions, the text of its URI and the bytes of
/// its store.
pub type C2PAView = (u16, u16, Option<Seq<char>>, Option<Seq<u8>>);

impl View for TableC2PA {
    type V = C2PAView;

    open spec fn view(&self) -> C2PAView {
        (
            self.major_version,
            self.minor_version,
            opt_chars(self.active_manifest_uri),
            opt_seq(self.manifest_store),
        )
    }
}

impl TableC2PA {
    /// The UTF-8 bytes of the URI, empty when there is none.
    pub open spec fn uri_bytes(self) -> Seq<u8> {
        match self.active_manifest_uri {
            Some(u) => encode_utf8(u@),
            None => Seq::empty(),
        }
    }

    /// The bytes of the store, empty when there is none.
    pub open spec fn store_bytes(self) -> Seq<u8> {
        match self.manifest_store {
            Some(s) => s@,
            None => Seq::empty(),
        }
    }

    /// The fixed part that describes the table when it is written.
    pub open spec fn spec_raw(self) -> TableC2PARaw {
        TableC2PARaw {
            majorVersion: self.major_version,
            minorVersion: self.minor_version,
            activeManifestUriOffset: if self.active_manifest_uri is Some {
                20
            } else {
                0
            },
            activeManifestUriLength: if self.active_manifest_uri is Some {
                self.uri_bytes().len() as u16
            } else {
                0
            },
            reserved: 0,
            manifestStoreOffset: if self.manifest_store is Some {
                add32(20, self.uri_bytes().len() as u32)
            } else {
                0
            },
            manifestStoreLength: if self.manifest_store is Some {
                self.store_bytes().len() as u32
            } else {
                0
            },
        }
    }

    /// The bytes of the table: the fixed part, then the URI, then the store.
    pub open spec fn spec_bytes(self) -> Seq<u8> {
        self.spec_raw().spec_bytes() + self.uri_bytes() + self.store_bytes()
    }

    /// What reading a table of `size` bytes at `offset` of a stream in
    /// state `s` gives. The table must be at least as long as its fixed part,
    /// all of its bytes must be in the stream, and its URI and store must lie
    /// within them.
    pub open spec fn read_exact_result(
        s: StreamState,
        offset: usize,
        size: usize,
        r: Result<TableC2PA, FontIoError>,
    ) -> bool {
        let rem = s.at(offset as int).remaining();
        &&& (size < 20 || rem.len() < size) ==> (r matches Err(
            FontIoError::LoadTableTruncated(tag),
        ) && tag@ == c2pa_tag_bytes())
        &&& (size >= 20 && rem.len() >= size) ==> match spec_parse_c2pa(
            rem.take(size as int),
        ) {
            Ok(v) => r matches Ok(t) && t@ == v,
            Err(C2PAParseFailure::Truncated) => r matches Err(
                FontIoError::LoadTableTruncated(tag),
            ) && tag@ == c2pa_tag_bytes(),
            Err(C2PAParseFailure::InvalidUri) => r matches Err(
                FontIoError::StringFromUtf8(b),
            ) && b@ == spec_uri_range(rem.take(size as int)),
        }
    }

    /// Whether reading a table of `size` bytes at `offset` succeeds.
    pub open spec fn read_exact_ok(s: StreamState, offset: usize, size: usize) -> bool {
        let rem = s.at(offset as int).remaining();
        &&& size >= 20
        &&& rem.len() >= size
        &&& spec_parse_c2pa(rem.take(size as int)) is Ok
    }

    /// The UTF-8 bytes of the URI, empty when there is none.
    fn uri_slice(&self) -> (r: &[u8])
        ensures
            r@ == self.uri_bytes(),
    {
        match &self.active_manifest_uri {
            Some(uri) => uri.as_str().as_bytes(),
            None => &[],
        }
    }

    /// The bytes of the store, empty when there is none.
    fn store_slice(&self) -> (r: &[u8])
        ensures
            r@ == self.store_bytes(),
    {
        match &self.manifest_store {
            Some(store) => store.as_slice(),
            None => &[],
        }
    }

    /// The table's parts fit the fields that describe them.
    pub open spec fn fits(self) -> bool {
        &&& self.uri_bytes().len() <= u16::MAX
        &&& 20 + self.uri_bytes().len() + self.store_bytes().len() <= u32::MAX
    }
}

/// Why the bytes of a table do not hold one.
#[derive(Debug, Clone, Copy, PartialEq, Eq, Structural)]
pub enum C2PAParseFailure {
    /// The URI or the store lies, in part, outside the bytes.
    Truncated,
    /// The bytes of the URI are not UTF-8.
    InvalidUri,
}

/// Whether the part at `off` of `len` bytes lies within `n` bytes.
pub open spec fn spec_in_range(off: u32, len: u32, n: int) -> bool {
    off as int + len as int <= n
}

/// The bytes of the URI that the fixed part at the start of `w` points to.
pub open spec fn spec_uri_range(w: Seq<u8>) -> Seq<u8> {
    let raw = spec_parse_raw(w);
    w.subrange(
        raw.activeManifestUriOffset as int,
        raw.activeManifestUriOffset + raw.activeManifestUriLength,
    )
}

/// The bytes of the store that the fixed part at the start of `w` points
/// to.
pub open spec fn spec_store_range(w: Seq<u8>) -> Seq<u8> {
    let raw = spec_parse_raw(w);
    w.subrange(raw.manifestStoreOffset as int, raw.manifestStoreOffset + raw.manifestStoreLength)
}

/// The table that the bytes `w` (at least 20 of them) hold, or why they do
/// not hold one: a part with a zero offset is absent; the URI is checked
/// before the store.
pub open spec fn spec_parse_c2pa(w: Seq<u8>) -> Result<C2PAView, C2PAParseFailure> {
    let raw = spec_parse_raw(w);
    let has_uri = raw.activeManifestUriOffset > 0;
    let has_store = raw.manifestStoreOffset > 0;
    if has_uri && !spec_in_range(
        raw.activeManifestUriOffset,
        raw.activeManifestUriLength as u32,
        w.len() as int,
    ) {
        Err(C2PAParseFailure::Truncated)
    } else if has_uri && !valid_utf8(spec_uri_range(w)) {
        Err(C2PAParseFailure::InvalidUri)
    } else if has_store && !spec_in_range(
        raw.manifestStoreOffset,
        raw.manifestStoreLength,
        w.len() as int,
    ) {
        Err(C2PAParseFailure::Truncated)
    } else {
        Ok(
            (
                raw.majorVersion,
                raw.minorVersion,
                if has_uri {
                    Some(decode_utf8(spec_uri_range(w)))
                } else {
                    None
                },
                if has_store {
                    Some(spec_store_range(w))
                } else {
                    None
                },
            ),
        )
    }
}

/// Reading the bytes that a table is written as gives the table back, when
/// its parts fit the fields that describe them.
#[verifier::spinoff_prover]
#[verifier::rlimit(40)]
pub proof fn law_c2pa_roundtrip(t: TableC2PA)
    requires
        t.fits(),
    ensures
        spec_parse_c2pa(t.spec_bytes()) == Ok::<C2PAView, C2PAParseFailure>(t@),
{
    let raw = t.spec_raw();
    let ub = t.uri_bytes();
    let sb = t.store_bytes();
    let w = t.spec_bytes();
    lemma_raw_bytes_are_words(raw);
    assert(w =~= raw.spec_bytes() + (ub + sb));
    lemma_raw_roundtrip(raw, ub + sb);
    assert(spec_parse_raw(w) == raw);
    if t.active_manifest_uri is Some {
        let u = t.active_manifest_uri.unwrap();
        assert((ub.len() as u16) as int == ub.len());
        assert(spec_uri_range(w) =~= ub);
        vstd::utf8::encode_utf8_valid_utf8(u@);
        vstd::utf8::encode_utf8_decode_utf8(u@);
    }
    if t.manifest_store is Some {
        assert((ub.len() as u32) as int == ub.len());
        assert(add32(20, ub.len() as u32) == 20 + ub.len());
        assert((sb.len() as u32) as int == sb.len());
        assert(spec_store_range(w) =~= sb);
    }
}

/// Parses the bytes `w` of a table.
fn parse_c2pa(w: &[u8]) -> (r: Result<TableC2PA, FontIoError>)
    requires
        w@.len() >= 20,
    ensures
        match spec_parse_c2pa(w@) {
            Ok(v) => r matches Ok(t) && t@ == v,
            Err(C2PAParseFailure::Truncated) => r matches Err(FontIoError::LoadTableTruncated(tag))
                && tag@ == c2pa_tag_bytes(),
            Err(C2PAParseFailure::InvalidUri) => r matches Err(FontIoError::StringFromUtf8(b))
                && b@ == spec_uri_range(w@),
        },
{
    let raw = TableC2PARaw::parse(w);
    let mut active_manifest_uri: Option<String> = None;
    let mut manifest_store: Option<Vec<u8>> = None;
    if raw.activeManifestUriOffset > 0 {
        let off = raw.activeManifestUriOffset as usize;
        let len = raw.activeManifestUriLength as usize;
        if off > w.len() || len > w.len() - off {
            return Err(FontIoError::LoadTableTruncated(FontTag::c2pa()));
        }
        let bytes = vstd::slice::slice_to_vec(vstd::slice::slice_subrange(w, off, off + len));
        match string_from_utf8(bytes) {
            Ok(s) => {
                active_manifest_uri = Some(s);
            },
            Err(b) => {
                return Err(FontIoError::StringFromUtf8(b));
            },
        }
    }
    if raw.manifestStoreOffset > 0 {
        let off = raw.manifestStoreOffset as usize;
        let len = raw.manifestStoreLength as usize;
        if off > w.len() || len > w.len() - off {
            return Err(FontIoError::LoadTableTruncated(FontTag::c2pa()));
        }
        manifest_store = Some(
            vstd::slice::slice_to_vec(vstd::slice::slice_subrange(w, off, off + len)),
        );
    }
    Ok(
        TableC2PA {
            major_version: raw.majorVersion,
            minor_version: raw.minorVersion,
            active_manifest_uri,
            manifest_store,
        },
    )
}

impl FontDataRead for TableC2PA {
    type Error = FontIoError;

    /// Reads a table that starts at the position and may run to the end of
    /// the stream; a part that lies past the end is an `UnexpectedEof`.
    fn from_reader(reader: &mut Cursor) -> (r: Result<Self, FontIoError>)
        ensures
            ({
                let rem = old(reader)@.remaining();
                &&& rem.len() < 20 ==> r == Err::<TableC2PA, FontIoError>(
                    FontIoError::IoError(IoErrorKind::UnexpectedEof),
                )
                &&& rem.len() >= 20 ==> match spec_parse_c2pa(rem) {
                    Ok(v) => r matches Ok(t) && t@ == v,
                    Err(C2PAParseFailure::Truncated) => r == Err::<TableC2PA, FontIoError>(
                        FontIoError::IoError(IoErrorKind::UnexpectedEof),
                    ),
                    Err(C2PAParseFailure::InvalidUri) => r matches Err(
                        FontIoError::StringFromUtf8(b),
                    ) && b@ == spec_uri_range(rem),
                }
            }),
    {
        let rest = reader.read_to_end();
        if rest.len() < TableC2PARaw::MINIMUM_SIZE {
            return Err(FontIoError::IoError(IoErrorKind::UnexpectedEof));
        }
        match parse_c2pa(rest.as_slice()) {
            Ok(t) => Ok(t),
            Err(FontIoError::LoadTableTruncated(_)) => Err(
                FontIoError::IoError(IoErrorKind::UnexpectedEof),
            ),
            Err(e) => Err(e),
        }
    }
}

impl FontDataExactRead for TableC2PA {
    type Error = FontIoError;

    /// Reads the table of `size` bytes at `offset`. The table must be at
    /// least as long as its fixed part, all of its bytes must be in the
    /// stream, and its URI and store must lie within them.
    fn from_reader_exact(reader: &mut Cursor, offset: usize, size: usize) -> (r: Result<
        Self,
        FontIoError,
    >)
        ensures
            Self::read_exact_result(old(reader)@, offset, size, r),
            final(reader)@ == old(reader)@.at(final(reader)@.pos),
    {
        if size < TableC2PARaw::MINIMUM_SIZE {
            return Err(FontIoError::LoadTableTruncated(FontTag::c2pa()));
        }
        reader.set_position(offset);
        match reader.read_exact(size) {
            Ok(window) => parse_c2pa(window.as_slice()),
            Err(_) => Err(FontIoError::LoadTableTruncated(FontTag::c2pa())),
        }
    }
}

impl FontDataWrite for TableC2PA {
    type Error = FontIoError;

    open spec fn bytes_spec(&self) -> Seq<u8> {
        self.spec_bytes()
    }

    /// Writes the fixed part, then the URI, then the store.
    fn write(&self, dest: &mut Cursor) -> (r: Result<(), FontIoError>)
        ensures
            r matches Err(e) ==> e == FontIoError::IoError(IoErrorKind::WriteZero),
    {
        let ghost s = dest@;
        let ghost rb = self.spec_raw().spec_bytes();
        let ghost ub = self.uri_bytes();
        let ghost sb = self.store_bytes();
        proof {
            lemma_write_concat(s, rb, ub + sb);
            lemma_write_concat(s.after_write(rb), ub, sb);
            assert(rb + (ub + sb) =~= self.spec_bytes());
        }
        let raw = match TableC2PARaw::from_table(self) {
            Ok(raw) => raw,
            Err(e) => return Err(e),
        };
        match raw.write(dest) {
            Ok(()) => {},
            Err(e) => return Err(e),
        }
        if let Some(uri) = &self.active_manifest_uri {
            if let Err(e) = dest.write_all(uri.as_str().as_bytes()) {
                return Err(FontIoError::IoError(e));
            }
        }
        if let Some(store) = &self.manifest_store {
            if let Err(e) = dest.write_all(store.as_slice()) {
                return Err(FontIoError::IoError(e));
            }
        }
        proof {
            if self.active_manifest_uri is None {
                assert(ub =~= Seq::<u8>::empty());
                assert(s.after_write(rb).after_write(ub) == s.after_write(rb)) by {
                    assert(rb + ub =~= rb);
                    lemma_write_concat(s, rb, ub);
                }
            }
            if self.manifest_store is None {
                assert(sb =~= Seq::<u8>::empty());
                assert(ub + sb =~= ub);
            }
        }
        Ok(())
    }
}

/// The checksum of a table's bytes is the wrapping sum of the checksum of
/// its fixed part, that of its URI, and that of its store shifted to where
/// the URI ends within a word.
proof fn lemma_c2pa_checksum_parts(t: TableC2PA)
    ensures
        spec_checksum(t.spec_bytes()) == add32(
            words_sum(t.spec_raw().spec_words()),
            add32(
                spec_checksum(t.uri_bytes()),
                spec_checksum(
                    crate::io::zeros((t.uri_bytes().len() % 4) as nat) + t.store_bytes(),
                ),
            ),
        ),
{
    let rb = t.spec_raw().spec_bytes();
    let ub = t.uri_bytes();
    let sb = t.store_bytes();
    lemma_raw_bytes_are_words(t.spec_raw());
    assert(t.spec_bytes() =~= rb + (ub + sb));
    lemma_checksum_concat(rb, ub + sb);
    lemma_checksum_concat_biased(ub, sb);
}

impl FontDataChecksum for TableC2PA {
    /// The checksum of the bytes that the table is written as.
    open spec fn checksum_spec(&self) -> u32 {
        spec_checksum(self.spec_bytes())
    }

    /// Sums the fixed part, the URI, and the store shifted to where the URI
    /// ends within a word.
    fn checksum(&self) -> (r: u32) {
        let raw = TableC2PARaw::from_table(self).unwrap();
        let header = raw.checksum();
        let uri_bytes = self.uri_slice();
        let uri_sum = checksum(uri_bytes);
        let bias: u32 = (uri_bytes.len() % 4) as u32;
        let store_sum = checksum_biased(self.store_slice(), bias);
        proof {
            lemma_c2pa_checksum_parts(*self);
        }
        wrapping_add32(header, wrapping_add32(uri_sum, store_sum))
    }
}

impl FontTable for TableC2PA {
    /// The length of the fixed part, the URI and the store, in 32 bits.
    open spec fn len_spec(&self) -> u32 {
        add32(add32(20, self.uri_bytes().len() as u32), self.store_bytes().len() as u32)
    }

    fn len(&self) -> (r: u32) {
        let mut len: u32 = TableC2PARaw::MINIMUM_SIZE as u32;
        if let Some(uri) = &self.active_manifest_uri {
            len = len.wrapping_add(uri.as_str().as_bytes().len() as u32);
        }
        if let Some(store) = &self.manifest_store {
            len = len.wrapping_add(store.len() as u32);
        }
        len
    }
}

impl Default for TableC2PA {
    /// An empty table of version 0.1.
    fn default() -> (r: Self)
        ensures
            r == spec_empty_c2pa(),
    {
        Self {
            major_version: DEFAULT_MAJOR_VERSION,
            minor_version: DEFAULT_MINOR_VERSION,
            active_manifest_uri: None,
            manifest_store: None,
        }
    }
}

/// The value of an optional part after an update: removed, replaced, or
/// left as it was.
pub open spec fn spec_apply_update<T>(old: Option<T>, update: Option<UpdateType<T>>) -> Option<T> {
    match update {
        Some(UpdateType::Remove) => None,
        Some(UpdateType::Update(v)) => Some(v),
        None => old,
    }
}

/// An empty table of version 0.1, as `default` makes it.
pub open spec fn spec_empty_c2pa() -> TableC2PA {
    TableC2PA {
        major_version: DEFAULT_MAJOR_VERSION,
        minor_version: DEFAULT_MINOR_VERSION,
        active_manifest_uri: None,
        manifest_store: None,
    }
}

/// The table after `update`: the versions stay, the URI and the store are
/// removed, replaced or kept as the update asks.
pub open spec fn spec_updated_c2pa(t: TableC2PA, update: UpdateContentCredentialRecord) -> TableC2PA {
    TableC2PA {
        major_version: t.major_version,
        minor_version: t.minor_version,
        active_manifest_uri: spec_apply_update(t.active_manifest_uri, update.active_manifest_uri),
        manifest_store: spec_apply_update(t.manifest_store, update.content_credential),
    }
}

impl UpdatableC2PA for TableC2PA {
    type Error = FontIoError;

    /// Removes or replaces the URI and the store as the update asks; the
    /// versions stay.
    fn update_c2pa_record(&mut self, record: UpdateContentCredentialRecord) -> (r: Result<
        (),
        FontIoError,
    >)
        ensures
            r is Ok,
            *final(self) == spec_updated_c2pa(*old(self), record),
            final(self).major_version == old(self).major_version,
            final(self).minor_version == old(self).minor_version,
            record.active_manifest_uri matches Some(UpdateType::Update(u)) ==> final(self).active_manifest_uri == Some(u),
            record.active_manifest_uri matches Some(UpdateType::Remove) ==> final(self).active_manifest_uri is None,
            record.active_manifest_uri is None ==> final(self).active_manifest_uri == old(self).active_manifest_uri,
            record.content_credential matches Some(UpdateType::Update(v)) ==> final(self).manifest_store == Some(v),
            record.content_credential matches Some(UpdateType::Remove) ==> final(self).manifest_store is None,
            record.content_credential is None ==> final(self).manifest_store == old(self).manifest_store,
    {
        let mut record = record;
        match record.take_active_manifest_uri() {
            Some(UpdateType::Remove) => {
                self.active_manifest_uri = None;
            },
            Some(UpdateType::Update(uri)) => {
                self.active_manifest_uri = Some(uri);
            },
            None => {},
        }
        match record.take_content_credential() {
            Some(UpdateType::Remove) => {
                self.manifest_store = None;
            },
            Some(UpdateType::Update(store)) => {
                self.manifest_store = Some(store);
            },
            None => {},
        }
        Ok(())
    }
}

} // verus!
