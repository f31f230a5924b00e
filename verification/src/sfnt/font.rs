//! SFNT fonts: reading, editing and writing them.

use crate::c2pa::{
    opt_chars, opt_seq, spec_version_error, C2PASupport, ContentCredentialRecord, UpdatableC2PA,
    UpdateContentCredentialRecord,
};
use crate::chunks::{ChunkPosition, ChunkReader, ChunkTypeTrait};
use crate::error::{FontIoError, FontSaveError};
use crate::io::{Cursor, IoErrorKind, StreamState};
use crate::io::lemma_write_concat;
use crate::magic::Magic;
use crate::sfnt::directory::{
    entries_bytes, entries_checksum, entries_parsed_from, spec_physical_order, spec_tag_order,
    SfntDirectory, SfntDirectoryEntry,
};
use crate::sfnt::table::head::{TableHead, SFNT_EXPECTED_CHECKSUM};
use crate::utils::{add32, align_to_four, spec_align4, words_sum, wrapping_add32};
use crate::sfnt::header::{spec_parse_header, SfntHeader};
use crate::sfnt::table::c2pa::{spec_empty_c2pa, spec_updated_c2pa, C2PAView, TableC2PA};
use crate::sfnt::table::dsig::TableDSIG;
use crate::sfnt::table::named_table::NamedTable;
use crate::tag::{c2pa_tag, c2pa_tag_bytes, dsig_tag, head_tag_bytes, lemma_key_injective, FontTag};
use crate::{
    Font, FontDSIGStubber, FontDataChecksum, FontDataExactRead, FontDataRead, FontDataWrite,
    FontDirectory, FontHeader, FontTable, MutFontDataWrite,
};
use std::collections::BTreeMap;
use vstd::prelude::*;
use vstd::string::StringExecFns;

verus! {

broadcast use {crate::io::lemma_cursor_wf, vstd::std_specs::btree::group_btree_axioms};

/// An SFNT font: its header, its table directory, and its tables keyed by
/// the numbers that their tags make.
#[derive(Debug)]
pub struct SfntFont {
    /// The font header.
    pub header: SfntHeader,
    /// The table directory.
    pub directory: SfntDirectory,
    /// The tables, keyed by [`FontTag::key`].
    pub tables: BTreeMap<u32, NamedTable>,
}

/// The number that the tag of the C2PA table makes.
pub open spec fn c2pa_key() -> u32 {
    c2pa_tag().spec_key()
}

/// The number that the tag of the DSIG table makes.
pub open spec fn dsig_key() -> u32 {
    dsig_tag().spec_key()
}

/// The number that the tag of the 'head' table makes.
pub open spec fn head_key() -> u32 {
    crate::tag::head_tag().spec_key()
}

/// No later entry of `d` than the one at `i` has its tag.
pub open spec fn last_with_tag(d: Seq<SfntDirectoryEntry>, i: int) -> bool {
    forall|j: int| i < j < d.len() ==> #[trigger] d[j].tag.spec_key() != d[i].tag.spec_key()
}

/// The tables were read, as the directory `d` describes them, from a
/// stream in state `s`: one table for each tag, read where the last entry
/// with that tag says.
pub open spec fn tables_read_from(
    tables: Map<u32, NamedTable>,
    d: Seq<SfntDirectoryEntry>,
    s: StreamState,
) -> bool {
    &&& forall|i: int| 0 <= i < d.len() ==> tables.contains_key(#[trigger] d[i].tag.spec_key())
    &&& forall|k: u32|
        tables.contains_key(k) ==> exists|i: int| 0 <= i < d.len() && #[trigger] d[i].tag.spec_key() == k
    &&& forall|i: int|
        0 <= i < d.len() && last_with_tag(d, i) ==> NamedTable::read_exact_result(
            d[i].tag,
            s,
            d[i].offset as usize,
            d[i].length as usize,
            Ok(#[trigger] tables[d[i].tag.spec_key()]),
        )
}

/// Every table that the directory `d` describes can be read from a stream
/// in state `s`.
pub open spec fn all_tables_readable(d: Seq<SfntDirectoryEntry>, s: StreamState) -> bool {
    forall|i: int|
        0 <= i < d.len() ==> NamedTable::read_exact_ok(
            #[trigger] d[i].tag,
            s,
            d[i].offset as usize,
            d[i].length as usize,
        )
}

/// Some table that the directory after the header `h` in a stream in state
/// `s` describes cannot be read.
pub open spec fn some_table_unreadable(h: SfntHeader, s: StreamState) -> bool {
    let rem = s.remaining();
    exists|d: Seq<SfntDirectoryEntry>|
        {
            &&& d.len() == h.numTables
            &&& #[trigger] entries_parsed_from(d, rem.subrange(12, rem.len() as int))
            &&& !all_tables_readable(d, s)
        }
}

/// What reading a font from a stream in state `s` gives: the header, then
/// the directory of as many entries as the header counts, then the tables
/// that the directory describes, each read as its tag says; or the error of
/// the header, a short stream, or a table that cannot be read.
pub open spec fn spec_font_read(s: StreamState, r: Result<SfntFont, FontIoError>) -> bool {
    let rem = s.remaining();
    match spec_parse_header(rem) {
        Err(e) => r == Err::<SfntFont, FontIoError>(e),
        Ok(h) => if rem.len() < 12 + 16 * h.numTables {
            r == Err::<SfntFont, FontIoError>(FontIoError::IoError(IoErrorKind::UnexpectedEof))
        } else {
            &&& r matches Ok(f) ==> {
                &&& f.header == h
                &&& f.directory@.len() == h.numTables
                &&& entries_parsed_from(f.directory@, rem.subrange(12, rem.len() as int))
                &&& all_tables_readable(f.directory@, s)
                &&& tables_read_from(f.tables@, f.directory@, s)
            }
            &&& r is Err ==> some_table_unreadable(h, s)
        },
    }
}

impl FontDataRead for SfntFont {
    type Error = FontIoError;

    /// Reads the header, then the directory of as many entries as the header
    /// counts, then each table that the directory describes.
    fn from_reader(reader: &mut Cursor) -> (r: Result<Self, FontIoError>)
        ensures
            spec_font_read(old(reader)@, r),
    {
        let ghost s = old(reader)@;
        let header = match SfntHeader::from_reader(reader) {
            Ok(h) => h,
            Err(e) => return Err(e),
        };
        proof {
            crate::io::lemma_remaining_advance(s, 12);
        }
        let directory = match SfntDirectory::from_reader_with_count(
            reader,
            header.num_tables() as usize,
        ) {
            Ok(d) => d,
            Err(e) => return Err(e),
        };
        let mut tables: BTreeMap<u32, NamedTable> = BTreeMap::new();
        let entries = directory.entries();
        let n = entries.len();
        let mut i: usize = 0;
        while i < n
            invariant
                i <= n,
                n == entries@.len(),
                entries@ == directory@,
                s == old(reader)@,
                reader@ == s.at(reader@.pos),
                directory@.len() == header.numTables,
                spec_parse_header(s.remaining()) == Ok::<SfntHeader, FontIoError>(header),
                entries_parsed_from(directory@, s.remaining().subrange(12, s.remaining().len() as int)),
                forall|q: int| 0 <= q < i ==> tables@.contains_key(#[trigger] entries@[q].tag.spec_key()),
                forall|k: u32|
                    tables@.contains_key(k) ==> exists|q: int| 0 <= q < i && #[trigger] entries@[q].tag.spec_key() == k,
                forall|q: int|
                    0 <= q < i && last_with_tag(entries@.take(i as int), q) ==> NamedTable::read_exact_result(
                        entries@[q].tag,
                        s,
                        entries@[q].offset as usize,
                        entries@[q].length as usize,
                        Ok(#[trigger] tables@[entries@[q].tag.spec_key()]),
                    ),
                forall|q: int|
                    0 <= q < i ==> NamedTable::read_exact_ok(
                        #[trigger] entries@[q].tag,
                        s,
                        entries@[q].offset as usize,
                        entries@[q].length as usize,
                    ),
            decreases n - i,
        {
            let entry = &entries[i];
            let ghost before = reader@;
            let table = match NamedTable::from_reader_exact(
                &entry.tag,
                reader,
                entry.offset as usize,
                entry.length as usize,
            ) {
                Ok(t) => t,
                Err(e) => {
                    proof {
                        assert(before.at(entry.offset as int) == s.at(entry.offset as int));
                        assert(directory@.len() == header.numTables);
                        assert(s.remaining().len() >= 12 + 16 * header.numTables);
                        assert(!all_tables_readable(directory@, s)) by {
                            assert(!NamedTable::read_exact_ok(
                                entries@[i as int].tag,
                                s,
                                entries@[i as int].offset as usize,
                                entries@[i as int].length as usize,
                            ));
                        }
                        assert(some_table_unreadable(header, s));
                    }
                    return Err(e);
                },
            };
            proof {
                assert(before.at(entry.offset as int) == s.at(entry.offset as int));
            }
            let ghost old_tables = tables@;
            tables.insert(entry.tag.key(), table);
            proof {
                let k = entries@[i as int].tag.spec_key();
                assert forall|q: int|
                    0 <= q < i + 1 && last_with_tag(entries@.take(i + 1), q) implies NamedTable::read_exact_result(
                    entries@[q].tag,
                    s,
                    entries@[q].offset as usize,
                    entries@[q].length as usize,
                    Ok(#[trigger] tables@[entries@[q].tag.spec_key()]),
                ) by {
                    if q < i {
                        assert(entries@.take(i + 1)[i as int] == entries@[i as int]);
                        assert(entries@[q].tag.spec_key() != k);
                        assert(last_with_tag(entries@.take(i as int), q)) by {
                            assert forall|j: int| q < j < i implies #[trigger] entries@.take(
                                i as int,
                            )[j].tag.spec_key() != entries@.take(i as int)[q].tag.spec_key() by {
                                assert(entries@.take(i as int)[j] == entries@.take(i + 1)[j]);
                            }
                        }
                    }
                }
                assert forall|k2: u32| tables@.contains_key(k2) implies exists|q: int|
                    0 <= q < i + 1 && #[trigger] entries@[q].tag.spec_key() == k2 by {
                    if k2 != k {
                        assert(old_tables.contains_key(k2));
                    } else {
                        assert(entries@[i as int].tag.spec_key() == k2);
                    }
                }
            }
            i = i + 1;
        }
        proof {
            assert(entries@.take(n as int) =~= entries@);
        }
        Ok(Self { header, directory, tables })
    }
}

/// `floor(log2(n))`, and 0 for 0.
pub open spec fn log2_floor(n: nat) -> nat
    decreases n,
{
    if n <= 1 {
        0
    } else {
        1 + log2_floor(n / 2)
    }
}

/// `2^e`.
pub open spec fn pow2(e: nat) -> nat
    decreases e,
{
    if e == 0 {
        1
    } else {
        2 * pow2((e - 1) as nat)
    }
}

/// The largest power of two that is at most `n`, for `n >= 1`.
pub(crate) proof fn lemma_pow2_log2_floor(n: nat)
    requires
        n >= 1,
    ensures
        pow2(log2_floor(n)) <= n,
        n < 2 * pow2(log2_floor(n)),
    decreases n,
{
    if n > 1 {
        lemma_pow2_log2_floor(n / 2);
    }
}

/// The header of a font of format `version` with `n` tables: the binary
/// search fields are those that the OpenType specification gives.
pub open spec fn spec_search_header(version: Magic, n: u16) -> SfntHeader {
    let es = log2_floor(n as nat);
    let sr = pow2(es) * 16;
    SfntHeader {
        sfntVersion: version,
        numTables: n,
        searchRange: sr as u16,
        entrySelector: es as u16,
        rangeShift: (n * 16 - sr) as u16,
    }
}

/// The entries that laying out, in the order of `es`, the tables of
/// `tables` that `es` names gives, the first at offset `start`: each table
/// starts where the one before ends, rounded up to four bytes.
pub open spec fn layout_entries(
    es: Seq<SfntDirectoryEntry>,
    tables: Map<u32, NamedTable>,
    start: int,
) -> Seq<SfntDirectoryEntry>
    decreases es.len(),
{
    if es.len() == 0 {
        Seq::empty()
    } else {
        let prev = layout_entries(es.drop_last(), tables, start);
        let e = es.last();
        let k = e.tag.spec_key();
        if tables.contains_key(k) {
            prev.push(
                SfntDirectoryEntry {
                    tag: e.tag,
                    checksum: tables[k].checksum_spec(),
                    offset: layout_end(es.drop_last(), tables, start) as u32,
                    length: tables[k].len_spec(),
                },
            )
        } else {
            prev
        }
    }
}

/// Where the layout of [`layout_entries`] ends.
pub open spec fn layout_end(es: Seq<SfntDirectoryEntry>, tables: Map<u32, NamedTable>, start: int) -> int
    decreases es.len(),
{
    if es.len() == 0 {
        start
    } else {
        let k = es.last().tag.spec_key();
        layout_end(es.drop_last(), tables, start) + if tables.contains_key(k) {
            spec_align4(tables[k].len_spec() as int)
        } else {
            0
        }
    }
}

/// The layout fits 32-bit offsets: every table's length can be rounded up,
/// and every running offset fits.
pub open spec fn layout_fits(es: Seq<SfntDirectoryEntry>, tables: Map<u32, NamedTable>, start: int) -> bool {
    &&& forall|i: int|
        0 <= i < es.len() && tables.contains_key(es[i].tag.spec_key()) ==> #[trigger] tables[es[i].tag.spec_key()].len_spec()
            <= u32::MAX - 3
    &&& forall|i: int| 0 <= i <= es.len() ==> #[trigger] layout_end(es.take(i), tables, start) <= u32::MAX
}

/// Some entry of `d` has the tag `tag`.
pub open spec fn has_tag(d: Seq<SfntDirectoryEntry>, tag: FontTag) -> bool {
    exists|i: int| 0 <= i < d.len() && #[trigger] d[i].tag@ == tag@
}

/// The number of tables of the font, as a header counts it.
pub open spec fn spec_table_count(f: SfntFont) -> u16 {
    f.tables@.len() as u16
}

/// Where the first table of the font goes when it is written.
pub open spec fn spec_first_offset(f: SfntFont) -> int {
    12 + 16 * spec_table_count(f)
}

/// The entries that writing the font lays out, in the order in which the
/// tables are written: the tables that the directory names, in the order of
/// their offsets, then the C2PA table if the directory does not name it.
pub open spec fn spec_laid_out(f: SfntFont) -> Seq<SfntDirectoryEntry> {
    let phys = spec_physical_order(f.directory@);
    let start = spec_first_offset(f);
    let laid = layout_entries(phys, f.tables@, start);
    if f.tables@.contains_key(c2pa_key()) && !has_tag(f.directory@, c2pa_tag()) {
        let t = f.tables@[c2pa_key()];
        laid.push(
            SfntDirectoryEntry {
                tag: c2pa_tag(),
                checksum: t.checksum_spec(),
                offset: layout_end(phys, f.tables@, start) as u32,
                length: t.len_spec(),
            },
        )
    } else {
        laid
    }
}

/// The wrapping sum of the table checksums that the entries record.
pub open spec fn recorded_checksums(d: Seq<SfntDirectoryEntry>) -> u32 {
    words_sum(d.map_values(|e: SfntDirectoryEntry| e.checksum))
}

/// The checksum of a whole font with this header and directory, from the
/// checksums of its parts.
pub open spec fn spec_font_checksum(h: SfntHeader, d: Seq<SfntDirectoryEntry>) -> u32 {
    add32(add32(h.spec_checksum(), entries_checksum(d)), recorded_checksums(d))
}

/// The value of the 'head' table's checksum adjustment that makes a font
/// of this checksum sum to the expected value.
pub open spec fn spec_adjustment(font_checksum: u32) -> u32 {
    ((SFNT_EXPECTED_CHECKSUM - font_checksum) % 0x1_0000_0000) as u32
}

/// The tables, with the checksum adjustment of the 'head' table set to
/// `adj` where there is such a table.
pub open spec fn spec_adjusted_tables(tables: Map<u32, NamedTable>, adj: u32) -> Map<u32, NamedTable> {
    if tables.contains_key(head_key()) {
        match tables[head_key()] {
            NamedTable::Head(h) => tables.insert(
                head_key(),
                NamedTable::Head(TableHead { checksumAdjustment: adj, ..h }),
            ),
            _ => tables,
        }
    } else {
        tables
    }
}

/// The bytes of the tables that the entries name, in their order.
pub open spec fn tables_bytes(es: Seq<SfntDirectoryEntry>, tables: Map<u32, NamedTable>) -> Seq<u8>
    decreases es.len(),
{
    if es.len() == 0 {
        Seq::empty()
    } else {
        let k = es.last().tag.spec_key();
        tables_bytes(es.drop_last(), tables) + if tables.contains_key(k) {
            tables[k].bytes_spec()
        } else {
            Seq::empty()
        }
    }
}

/// The bytes of a font: its header, its directory, then its tables in the
/// order of their offsets.
pub open spec fn spec_font_bytes(
    h: SfntHeader,
    d: Seq<SfntDirectoryEntry>,
    tables: Map<u32, NamedTable>,
) -> Seq<u8> {
    h.spec_bytes() + entries_bytes(d) + tables_bytes(spec_physical_order(d), tables)
}

/// The header, directory and tables that writing the font gives it.
pub open spec fn spec_written(f: SfntFont) -> (SfntHeader, Seq<SfntDirectoryEntry>, Map<u32, NamedTable>) {
    let h = spec_search_header(f.header.sfntVersion, spec_table_count(f));
    let d = spec_tag_order(spec_laid_out(f));
    (h, d, spec_adjusted_tables(f.tables@, spec_adjustment(spec_font_checksum(h, d))))
}

/// The bytes that writing the font writes.
pub open spec fn spec_written_bytes(f: SfntFont) -> Seq<u8> {
    let w = spec_written(f);
    spec_font_bytes(w.0, w.1, w.2)
}

/// Writing the font gets past its checks: it has tables, and at most one
/// table was added or removed since it was read.
pub open spec fn spec_write_checks_pass(f: SfntFont) -> bool {
    let n = spec_table_count(f) as int;
    &&& n > 0
    &&& -1 <= n - f.header.numTables <= 1
}

/// Computes the header of a font of format `version` with `n` tables.
fn search_header(version: Magic, n: u16) -> (r: SfntHeader)
    requires
        0 < n < 4096,
    ensures
        r == spec_search_header(version, n),
{
    let mut es: u16 = 0;
    let mut m: u16 = n;
    assert(pow2(0) == 1);
    while m > 1
        invariant
            1 <= m <= n,
            n < 4096,
            log2_floor(n as nat) == es + log2_floor(m as nat),
            pow2(es as nat) * m <= n,
        decreases m,
    {
        proof {
            lemma_pow2_positive(es as nat);
            let p = pow2(es as nat);
            assert(pow2(es as nat + 1) == 2 * p);
            assert(2 * p * (m / 2) <= p * m && p <= p * m) by (nonlinear_arith)
                requires
                    m >= 2,
                    p >= 1,
            ;
        }
        m = m / 2;
        es = es + 1;
    }
    proof {
        lemma_pow2_log2_floor(n as nat);
    }
    let mut p: u16 = 1;
    let mut i: u16 = 0;
    while i < es
        invariant
            i <= es,
            es == log2_floor(n as nat),
            p == pow2(i as nat),
            pow2(es as nat) <= n,
            n < 4096,
        decreases es - i,
    {
        proof {
            lemma_pow2_monotone((i + 1) as nat, es as nat);
        }
        p = p * 2;
        i = i + 1;
    }
    let search_range = p * 16;
    SfntHeader {
        sfntVersion: version,
        numTables: n,
        searchRange: search_range,
        entrySelector: es,
        rangeShift: n * 16 - search_range,
    }
}

/// Powers of two are positive and at least one more than their exponent.
pub(crate) proof fn lemma_pow2_positive(e: nat)
    ensures
        pow2(e) >= 1,
        pow2(e) >= e + 1,
    decreases e,
{
    if e > 0 {
        lemma_pow2_positive((e - 1) as nat);
    }
}

/// Powers of two grow with their exponent.
proof fn lemma_pow2_monotone(a: nat, b: nat)
    requires
        a <= b,
    ensures
        pow2(a) <= pow2(b),
    decreases b,
{
    if a < b {
        lemma_pow2_monotone(a, (b - 1) as nat);
        lemma_pow2_positive((b - 1) as nat);
    }
}

impl SfntFont {
    /// The table that the font holds under the tag `tag`.
    pub open spec fn spec_table(self, tag: FontTag) -> Option<NamedTable> {
        if self.tables@.contains_key(tag.spec_key()) {
            Some(self.tables@[tag.spec_key()])
        } else {
            None
        }
    }
}

/// The bytes of the tables that two lists of entries name are those of
/// the first list, then those of the second.
pub proof fn lemma_tables_bytes_concat(
    a: Seq<SfntDirectoryEntry>,
    b: Seq<SfntDirectoryEntry>,
    tables: Map<u32, NamedTable>,
)
    ensures
        tables_bytes(a + b, tables) == tables_bytes(a, tables) + tables_bytes(b, tables),
    decreases b.len(),
{
    if b.len() == 0 {
        assert(a + b =~= a);
        assert(tables_bytes(a, tables) + tables_bytes(b, tables) =~= tables_bytes(a, tables));
    } else {
        lemma_tables_bytes_concat(a, b.drop_last(), tables);
        assert((a + b).drop_last() =~= a + b.drop_last());
        assert(tables_bytes(a + b, tables) =~= tables_bytes(a, tables) + tables_bytes(b, tables));
    }
}

/// Whether some entry of the directory has the tag `tag`.
fn directory_has_tag(d: &SfntDirectory, tag: &FontTag) -> (r: bool)
    ensures
        r == has_tag(d@, *tag),
{
    let entries = d.entries();
    let mut i: usize = 0;
    while i < entries.len()
        invariant
            i <= entries@.len(),
            entries@ == d@,
            forall|q: int| 0 <= q < i ==> #[trigger] entries@[q].tag@ != tag@,
        decreases entries@.len() - i,
    {
        if entries[i].tag.same(tag) {
            return true;
        }
        i = i + 1;
    }
    false
}

/// The wrapping sum of the table checksums that the directory's entries
/// record.
fn sum_recorded_checksums(d: &SfntDirectory) -> (r: u32)
    ensures
        r == recorded_checksums(d@),
{
    let entries = d.entries();
    let ghost f = |e: SfntDirectoryEntry| e.checksum;
    let mut sum: u32 = 0;
    let mut i: usize = 0;
    while i < entries.len()
        invariant
            i <= entries@.len(),
            entries@ == d@,
            f == (|e: SfntDirectoryEntry| e.checksum),
            sum == words_sum(entries@.take(i as int).map_values(f)),
        decreases entries@.len() - i,
    {
        proof {
            let t = entries@.take(i + 1).map_values(f);
            assert(t.drop_last() =~= entries@.take(i as int).map_values(f));
            assert(t.last() == entries@[i as int].checksum);
        }
        sum = sum.wrapping_add(entries[i].checksum);
        i = i + 1;
    }
    assert(entries@.take(entries@.len() as int) =~= entries@);
    sum
}

/// The checksum of a whole font with this header and directory.
fn font_checksum(h: &SfntHeader, d: &SfntDirectory) -> (r: u32)
    ensures
        r == spec_font_checksum(*h, d@),
{
    let hc = h.checksum();
    let dc = d.checksum();
    let a = wrapping_add32(hc, dc);
    let b = sum_recorded_checksums(d);
    wrapping_add32(a, b)
}

impl SfntFont {
    /// Lays out, from `start`, the tables that the directory names, in the
    /// order of their offsets; gives the entries and where the layout ends.
    fn lay_out(&self, start: u32) -> (r: (Vec<SfntDirectoryEntry>, u32))
        requires
            layout_fits(spec_physical_order(self.directory@), self.tables@, start as int),
        ensures
            r.0@ == layout_entries(spec_physical_order(self.directory@), self.tables@, start as int),
            r.1 == layout_end(spec_physical_order(self.directory@), self.tables@, start as int),
    {
        let phys = self.directory.physical_order();
        let ghost order = spec_physical_order(self.directory@);
        let mut out: Vec<SfntDirectoryEntry> = Vec::new();
        let mut running: u32 = start;
        let mut i: usize = 0;
        while i < phys.len()
            invariant
                i <= phys@.len(),
                phys@.len() == order.len(),
                order == spec_physical_order(self.directory@),
                forall|q: int| 0 <= q < phys@.len() ==> *#[trigger] phys@[q] == order[q],
                layout_fits(order, self.tables@, start as int),
                out@ == layout_entries(order.take(i as int), self.tables@, start as int),
                running == layout_end(order.take(i as int), self.tables@, start as int),
            decreases phys@.len() - i,
        {
            let entry = phys[i];
            proof {
                assert(order.take(i + 1).drop_last() =~= order.take(i as int));
                assert(order.take(i + 1).last() == order[i as int]);
                assert(layout_end(order.take(i + 1), self.tables@, start as int) <= u32::MAX);
            }
            match self.tables.get(&entry.tag.key()) {
                Some(t) => {
                    let len = t.len();
                    proof {
                        assert(self.tables@.contains_key(order[i as int].tag.spec_key()));
                        assert(self.tables@[order[i as int].tag.spec_key()].len_spec() <= u32::MAX - 3);
                    }
                    out.push(
                        SfntDirectoryEntry {
                            tag: entry.tag,
                            checksum: t.checksum(),
                            offset: running,
                            length: len,
                        },
                    );
                    running = running + align_to_four(len);
                },
                None => {},
            }
            i = i + 1;
        }
        assert(order.take(order.len() as int) =~= order);
        (out, running)
    }

    /// The entries that writing the font lays out, in the order in which
    /// the tables are written.
    fn laid_out(&self, count: u16) -> (r: Vec<SfntDirectoryEntry>)
        requires
            count == spec_table_count(*self),
            count < 4096,
            layout_fits(spec_physical_order(self.directory@), self.tables@, spec_first_offset(*self)),
        ensures
            r@ == spec_laid_out(*self),
    {
        let start: u32 = SfntHeader::SIZE as u32 + SfntDirectoryEntry::SIZE as u32 * count as u32;
        let (mut entries, running) = self.lay_out(start);
        match self.tables.get(&FontTag::c2pa().key()) {
            Some(c2pa) => {
                if !directory_has_tag(&self.directory, &FontTag::c2pa()) {
                    entries.push(
                        SfntDirectoryEntry {
                            tag: FontTag::c2pa(),
                            checksum: c2pa.checksum(),
                            offset: running,
                            length: c2pa.len(),
                        },
                    );
                }
            },
            None => {},
        }
        entries
    }

    /// Makes the header, directory and 'head' table that writing the font
    /// writes.
    fn rebuild(&mut self, count: u16)
        requires
            count == spec_table_count(*old(self)),
            0 < count < 4096,
            layout_fits(
                spec_physical_order(old(self).directory@),
                old(self).tables@,
                spec_first_offset(*old(self)),
            ),
        ensures
            final(self).header == spec_written(*old(self)).0,
            final(self).directory@ == spec_written(*old(self)).1,
            final(self).tables@ == spec_written(*old(self)).2,
    {
        let neo_header = search_header(self.header.sfntVersion, count);
        let entries = self.laid_out(count);
        let mut neo_directory = SfntDirectory::from_entries(entries);
        neo_directory.sort_entries();
        let font_checksum = font_checksum(&neo_header, &neo_directory);
        let adjustment = SFNT_EXPECTED_CHECKSUM.wrapping_sub(font_checksum);
        assert(adjustment == spec_adjustment(font_checksum));
        self.adjust_head(adjustment);
        self.header = neo_header;
        self.directory = neo_directory;
    }

    /// Sets the checksum adjustment of the 'head' table, if there is one.
    fn adjust_head(&mut self, adj: u32)
        ensures
            final(self).header == old(self).header,
            final(self).directory@ == old(self).directory@,
            final(self).tables@ == spec_adjusted_tables(old(self).tables@, adj),
    {
        let key = FontTag::head().key();
        match self.tables.remove(&key) {
            Some(NamedTable::Head(h)) => {
                let mut head = h;
                head.checksumAdjustment = adj;
                self.tables.insert(key, NamedTable::Head(head));
                assert(self.tables@ =~= spec_adjusted_tables(old(self).tables@, adj));
            },
            Some(other) => {
                self.tables.insert(key, other);
                assert(self.tables@ =~= old(self).tables@);
            },
            None => {
                assert(self.tables@ =~= old(self).tables@);
            },
        }
    }

    /// Writes the tables that the directory names, in the order of their
    /// offsets.
    fn write_tables(&self, dest: &mut Cursor) -> (r: Result<(), FontIoError>)
        ensures
            final(dest)@ == old(dest)@.after_write(
                tables_bytes(spec_physical_order(self.directory@), self.tables@),
            ),
            r is Ok <==> old(dest)@.write_ok(
                tables_bytes(spec_physical_order(self.directory@), self.tables@),
            ),
            r matches Err(e) ==> (e == FontIoError::IoError(IoErrorKind::WriteZero) || e
                == FontIoError::FailedToWriteTableData(IoErrorKind::WriteZero)),
    {
        let phys = self.directory.physical_order();
        let ghost order = spec_physical_order(self.directory@);
        let ghost s0 = dest@;
        let ghost all = tables_bytes(order, self.tables@);
        let mut i: usize = 0;
        while i < phys.len()
            invariant
                i <= phys@.len(),
                phys@.len() == order.len(),
                order == spec_physical_order(self.directory@),
                forall|q: int| 0 <= q < phys@.len() ==> *#[trigger] phys@[q] == order[q],
                s0 == old(dest)@,
                s0.wf(),
                all == tables_bytes(order, self.tables@),
                dest@ == s0.after_write(tables_bytes(order.take(i as int), self.tables@)),
                s0.write_ok(tables_bytes(order.take(i as int), self.tables@)),
            decreases phys@.len() - i,
        {
            let entry = phys[i];
            let ghost prefix = tables_bytes(order.take(i as int), self.tables@);
            let ghost next = tables_bytes(order.take(i + 1), self.tables@);
            proof {
                assert(order.take(i + 1).drop_last() =~= order.take(i as int));
                assert(order.take(i + 1).last() == order[i as int]);
                assert(order =~= order.take(i + 1) + order.skip(i + 1));
                lemma_tables_bytes_concat(order.take(i + 1), order.skip(i + 1), self.tables@);
                lemma_write_concat(s0, next, tables_bytes(order.skip(i + 1), self.tables@));
            }
            match self.tables.get(&entry.tag.key()) {
                Some(t) => {
                    proof {
                        lemma_write_concat(s0, prefix, t.bytes_spec());
                        assert(next == prefix + t.bytes_spec());
                    }
                    match t.write(dest) {
                        Ok(()) => {},
                        Err(e) => {
                            return Err(e);
                        },
                    }
                },
                None => {
                    proof {
                        assert(next =~= prefix);
                    }
                },
            }
            i = i + 1;
        }
        assert(order.take(order.len() as int) =~= order);
        Ok(())
    }
}

impl MutFontDataWrite for SfntFont {
    type Error = FontIoError;

    /// The font's tables fit a header, and if the checks pass, its layout
    /// fits 32-bit offsets.
    open spec fn write_requires(&self, dest: StreamState) -> bool {
        &&& spec_table_count(*self) < 4096
        &&& spec_write_checks_pass(*self) ==> layout_fits(
            spec_physical_order(self.directory@),
            self.tables@,
            spec_first_offset(*self),
        )
    }

    /// Writes the font. The header is made anew for the current number of
    /// tables; the tables that the directory names are laid out again in
    /// the order of their offsets, and a C2PA table that it does not name
    /// goes last; the directory is sorted by tag; the 'head' table's
    /// checksum adjustment is set so that the font sums to the expected
    /// checksum. Then the header, the directory and the tables are written.
    /// Fails, changing nothing, if there are no tables, or if more than one
    /// table was added or removed since the font was read.
    fn write(&mut self, dest: &mut Cursor) -> (r: Result<(), FontIoError>)
        ensures
            spec_table_count(*old(self)) == 0 ==> r == Err::<(), FontIoError>(
                FontIoError::SaveError(FontSaveError::NoTablesFound),
            ),
            spec_table_count(*old(self)) > 0 && spec_table_count(*old(self)) as int
                - old(self).header.numTables < -1 ==> r == Err::<(), FontIoError>(
                FontIoError::SaveError(FontSaveError::TooManyTablesRemoved),
            ),
            spec_table_count(*old(self)) > 0 && spec_table_count(*old(self)) as int
                - old(self).header.numTables > 1 ==> r == Err::<(), FontIoError>(
                FontIoError::SaveError(FontSaveError::TooManyTablesAdded),
            ),
            !spec_write_checks_pass(*old(self)) ==> {
                &&& final(self).header == old(self).header
                &&& final(self).directory@ == old(self).directory@
                &&& final(self).tables@ == old(self).tables@
                &&& final(dest)@ == old(dest)@
            },
            spec_write_checks_pass(*old(self)) ==> {
                &&& final(self).header == spec_written(*old(self)).0
                &&& final(self).directory@ == spec_written(*old(self)).1
                &&& final(self).tables@ == spec_written(*old(self)).2
                &&& final(dest)@ == old(dest)@.after_write(spec_written_bytes(*old(self)))
                &&& r is Ok <==> old(dest)@.write_ok(spec_written_bytes(*old(self)))
                &&& r matches Err(e) ==> (e == FontIoError::IoError(IoErrorKind::WriteZero) || e
                    == FontIoError::FailedToWriteTableData(IoErrorKind::WriteZero))
            },
    {
        let count = self.tables.len() as u16;
        if count == 0 {
            return Err(FontIoError::SaveError(FontSaveError::NoTablesFound));
        }
        let table_diff: i32 = count as i32 - self.header.numTables as i32;
        if table_diff < -1 {
            return Err(FontIoError::SaveError(FontSaveError::TooManyTablesRemoved));
        } else if table_diff > 1 {
            return Err(FontIoError::SaveError(FontSaveError::TooManyTablesAdded));
        }
        self.rebuild(count);
        let ghost s0 = dest@;
        let ghost hb = self.header.spec_bytes();
        let ghost db = entries_bytes(self.directory@);
        let ghost tb = tables_bytes(spec_physical_order(self.directory@), self.tables@);
        proof {
            lemma_write_concat(s0, hb, db);
            lemma_write_concat(s0, hb + db, tb);
            lemma_write_concat(s0.after_write(hb), db, tb);
            assert(hb + db + tb =~= hb + (db + tb));
        }
        match self.header.write(dest) {
            Ok(()) => {},
            Err(e) => {
                proof {
                    lemma_write_concat(s0, hb, db + tb);
                }
                return Err(e);
            },
        }
        match self.directory.write(dest) {
            Ok(()) => {},
            Err(e) => {
                return Err(e);
            },
        }
        self.write_tables(dest)
    }
}

impl Font for SfntFont {
    type Header = SfntHeader;
    type Directory = SfntDirectory;
    type Table = NamedTable;

    /// Whether the font holds a table tagged `tag`.
    fn contains_table(&self, tag: &FontTag) -> (r: bool)
        ensures
            r == self.tables@.contains_key(tag.spec_key()),
    {
        self.tables.contains_key(&tag.key())
    }

    /// The table tagged `tag`.
    fn table(&self, tag: &FontTag) -> (r: Option<&NamedTable>)
        ensures
            match self.spec_table(*tag) {
                Some(t) => r matches Some(x) && *x == t,
                None => r is None,
            },
    {
        self.tables.get(&tag.key())
    }

    /// The font header.
    fn header(&self) -> (r: &SfntHeader)
        ensures
            *r == self.header,
    {
        &self.header
    }

    /// The font directory.
    fn directory(&self) -> (r: &SfntDirectory)
        ensures
            r@ == self.directory@,
    {
        &self.directory
    }
}

/// The font `f` is `g` with its DSIG table, if it has one, replaced by a
/// stub: the same header, directory and tables otherwise.
pub open spec fn dsig_stubbed_from(g: SfntFont, f: SfntFont) -> bool {
    &&& f.header == g.header
    &&& f.directory@ == g.directory@
    &&& f.tables@.dom() == g.tables@.dom()
    &&& forall|k: u32|
        k != dsig_key() && g.tables@.contains_key(k) ==> #[trigger] f.tables@[k] == g.tables@[k]
    &&& g.tables@.contains_key(dsig_key()) ==> (f.tables@[dsig_key()] matches NamedTable::DSIG(t)
        && t.spec_is_stubbed())
}

impl FontDSIGStubber for SfntFont {
    type Error = FontIoError;

    /// Replaces the DSIG table, if there is one, with a stub.
    fn stub_dsig(&mut self) -> (r: Result<(), FontIoError>)
        ensures
            r is Ok,
            dsig_stubbed_from(*old(self), *final(self)),
    {
        let key = FontTag::dsig().key();
        if self.tables.contains_key(&key) {
            self.tables.insert(key, NamedTable::DSIG(TableDSIG::stub()));
            assert(self.tables@.dom() =~= old(self).tables@.dom());
        }
        Ok(())
    }
}

/// The C2PA table that adding `record` puts in a font.
pub open spec fn spec_record_table(record: ContentCredentialRecord) -> TableC2PA {
    TableC2PA {
        major_version: record.major_version,
        minor_version: record.minor_version,
        active_manifest_uri: record.active_manifest_uri,
        manifest_store: record.content_credential,
    }
}

/// What reading the C2PA record of a font with these tables gives: the
/// record of its C2PA table, an error for an unsupported version, or
/// nothing when the font holds no C2PA table.
pub open spec fn spec_get_c2pa(tables: Map<u32, NamedTable>) -> Result<Option<C2PAView>, FontIoError> {
    match tables.get(c2pa_key()) {
        Some(NamedTable::C2PA(t)) => match spec_version_error(t.major_version, t.minor_version) {
            Some(e) => Err(e),
            None => Ok(Some(t@)),
        },
        _ => Ok(None),
    }
}

/// A result of reading a record, with the record taken by its view.
pub open spec fn spec_record_result(r: Result<Option<ContentCredentialRecord>, FontIoError>) -> Result<
    Option<C2PAView>,
    FontIoError,
> {
    match r {
        Ok(Some(rec)) => Ok(Some(rec@)),
        Ok(None) => Ok(None),
        Err(e) => Err(e),
    }
}

/// The tables of a font after a C2PA update: the C2PA table updated, or an
/// empty one of version 0.1 updated where there was none; unchanged where
/// the C2PA tag names a table of another kind.
pub open spec fn spec_updated_tables(
    tables: Map<u32, NamedTable>,
    update: UpdateContentCredentialRecord,
) -> Map<u32, NamedTable> {
    match tables.get(c2pa_key()) {
        Some(NamedTable::C2PA(t)) => tables.insert(
            c2pa_key(),
            NamedTable::C2PA(spec_updated_c2pa(t, update)),
        ),
        Some(_) => tables,
        None => tables.insert(c2pa_key(), NamedTable::C2PA(spec_updated_c2pa(spec_empty_c2pa(), update))),
    }
}

impl C2PASupport for SfntFont {
    type Error = FontIoError;

    /// Adds a C2PA table that holds the record; fails if there is one
    /// already.
    fn add_c2pa_record(&mut self, record: ContentCredentialRecord) -> (r: Result<(), FontIoError>)
        ensures
            old(self).tables@.contains_key(c2pa_key()) ==> {
                &&& r == Err::<(), FontIoError>(FontIoError::ContentCredentialAlreadyExists)
                &&& final(self).tables@ == old(self).tables@
            },
            !old(self).tables@.contains_key(c2pa_key()) ==> {
                &&& r is Ok
                &&& final(self).tables@ == old(self).tables@.insert(
                    c2pa_key(),
                    NamedTable::C2PA(spec_record_table(record)),
                )
            },
            final(self).header == old(self).header,
            final(self).directory@ == old(self).directory@,
    {
        let key = FontTag::c2pa().key();
        if self.tables.contains_key(&key) {
            return Err(FontIoError::ContentCredentialAlreadyExists);
        }
        let c2pa_table = TableC2PA {
            major_version: record.major_version,
            minor_version: record.minor_version,
            active_manifest_uri: record.active_manifest_uri,
            manifest_store: record.content_credential,
        };
        self.tables.insert(key, NamedTable::C2PA(c2pa_table));
        Ok(())
    }

    /// Whether the font holds a C2PA table.
    fn has_c2pa(&self) -> (r: bool)
        ensures
            r == self.tables@.contains_key(c2pa_key()),
    {
        self.tables.contains_key(&FontTag::c2pa().key())
    }

    /// The record that the font's C2PA table holds, if it holds one.
    fn get_c2pa(self) -> (r: Result<Option<ContentCredentialRecord>, FontIoError>)
        ensures
            spec_record_result(r) == spec_get_c2pa(self.tables@),
    {
        match self.tables.get(&FontTag::c2pa().key()) {
            Some(NamedTable::C2PA(table)) => match ContentCredentialRecord::try_from(table) {
                Ok(record) => Ok(Some(record)),
                Err(e) => Err(e),
            },
            _ => Ok(None),
        }
    }

    /// Removes the C2PA table; fails if there is none.
    fn remove_c2pa_record(&mut self) -> (r: Result<(), FontIoError>)
        ensures
            old(self).tables@.contains_key(c2pa_key()) ==> r is Ok,
            !old(self).tables@.contains_key(c2pa_key()) ==> r == Err::<(), FontIoError>(
                FontIoError::ContentCredentialNotFound,
            ),
            final(self).tables@ == old(self).tables@.remove(c2pa_key()),
            final(self).header == old(self).header,
            final(self).directory@ == old(self).directory@,
    {
        match self.tables.remove(&FontTag::c2pa().key()) {
            Some(_) => Ok(()),
            None => {
                assert(self.tables@ =~= old(self).tables@.remove(c2pa_key()));
                Err(FontIoError::ContentCredentialNotFound)
            },
        }
    }
}

impl UpdatableC2PA for SfntFont {
    type Error = FontIoError;

    /// Applies the update to the C2PA table, creating an empty one of
    /// version 0.1 first if there is none; fails if the table under the
    /// C2PA tag is not a C2PA table.
    fn update_c2pa_record(&mut self, record: UpdateContentCredentialRecord) -> (r: Result<
        (),
        FontIoError,
    >)
        ensures
            final(self).header == old(self).header,
            final(self).directory@ == old(self).directory@,
            final(self).tables@ == spec_updated_tables(old(self).tables@, record),
            match old(self).tables@.get(c2pa_key()) {
                Some(NamedTable::C2PA(_)) => r is Ok,
                Some(_) => r == Err::<(), FontIoError>(FontIoError::ContentCredentialNotFound),
                None => r is Ok,
            },
    {
        let key = FontTag::c2pa().key();
        match self.tables.remove(&key) {
            None => {
                let mut c2pa_table = TableC2PA::default();
                let _ = c2pa_table.update_c2pa_record(record);
                self.tables.insert(key, NamedTable::C2PA(c2pa_table));
                assert(self.tables@.dom() =~= old(self).tables@.dom().insert(c2pa_key()));
                Ok(())
            },
            Some(NamedTable::C2PA(table)) => {
                let mut table_c2pa = table;
                let _ = table_c2pa.update_c2pa_record(record);
                self.tables.insert(key, NamedTable::C2PA(table_c2pa));
                assert(self.tables@.dom() =~= old(self).tables@.dom().insert(c2pa_key()));
                Ok(())
            },
            Some(other) => {
                self.tables.insert(key, other);
                assert(self.tables@ =~= old(self).tables@);
                assert(self.tables@.dom() =~= old(self).tables@.dom().insert(c2pa_key()));
                Err(FontIoError::ContentCredentialNotFound)
            },
        }
    }
}

/// The kinds of chunk of an SFNT font.
#[derive(Debug, Clone, Copy, PartialEq, Eq, Structural)]
pub enum SfntChunkType {
    /// The header and the table directory.
    HeaderDirectory,
    /// Table data.
    TableData,
    /// The checksum adjustment of the 'head' table.
    ChecksumAdjustment,
    /// The data of the C2PA table.
    C2paTableData,
}

impl ChunkTypeTrait for SfntChunkType {
    /// The header, the directory and the checksum adjustment change when a
    /// credential is added, so they are not hashed; table data is.
    open spec fn spec_should_hash(&self) -> bool {
        match self {
            SfntChunkType::HeaderDirectory => false,
            SfntChunkType::ChecksumAdjustment => false,
            SfntChunkType::TableData => true,
            SfntChunkType::C2paTableData => true,
        }
    }

    open spec fn spec_name(&self) -> Seq<char> {
        match self {
            SfntChunkType::HeaderDirectory => "HeaderDirectory"@,
            SfntChunkType::TableData => "Table Data"@,
            SfntChunkType::ChecksumAdjustment => "Checksum Adjustment"@,
            SfntChunkType::C2paTableData => "C2PA Table Data"@,
        }
    }

    fn should_hash(&self) -> (r: bool) {
        match self {
            SfntChunkType::HeaderDirectory => false,
            SfntChunkType::ChecksumAdjustment => false,
            SfntChunkType::TableData => true,
            SfntChunkType::C2paTableData => true,
        }
    }

    /// "HeaderDirectory", "Table Data", "Checksum Adjustment" or "C2PA
    /// Table Data".
    fn to_string(&self) -> (r: String) {
        match self {
            SfntChunkType::HeaderDirectory => String::from_str("HeaderDirectory"),
            SfntChunkType::TableData => String::from_str("Table Data"),
            SfntChunkType::ChecksumAdjustment => String::from_str("Checksum Adjustment"),
            SfntChunkType::C2paTableData => String::from_str("C2PA Table Data"),
        }
    }
}

/// The name of the chunk of the header and directory, " HDR".
pub open spec fn header_chunk_name() -> [u8; 4] {
    [0x20u8, 0x48u8, 0x44u8, 0x52u8]
}

/// The names of the three chunks of the 'head' table: "hea0", "hea1" (the
/// checksum adjustment) and "hea2".
pub open spec fn head_chunk_name(i: u8) -> [u8; 4] {
    [0x68u8, 0x65u8, 0x61u8, (0x30 + i) as u8]
}

/// A chunk whose hashing follows its kind.
pub open spec fn chunk(offset: int, length: int, name: [u8; 4], kind: SfntChunkType) -> ChunkPosition<
    SfntChunkType,
> {
    ChunkPosition {
        offset: offset as usize,
        length: length as usize,
        name,
        chunk_type: kind,
        should_hash: kind.spec_should_hash(),
    }
}

/// The chunks of the table that the entry describes: the C2PA table whole,
/// the 'head' table in three parts that set its checksum adjustment apart,
/// any other table whole.
pub open spec fn entry_chunks(e: SfntDirectoryEntry) -> Seq<ChunkPosition<SfntChunkType>> {
    if e.tag@ == c2pa_tag_bytes() {
        seq![chunk(e.offset as int, e.length as int, e.tag.data, SfntChunkType::C2paTableData)]
    } else if e.tag@ == head_tag_bytes() {
        seq![
            chunk(e.offset as int, 8, head_chunk_name(0), SfntChunkType::TableData),
            chunk(e.offset + 8, 4, head_chunk_name(1), SfntChunkType::ChecksumAdjustment),
            chunk(e.offset + 12, 42, head_chunk_name(2), SfntChunkType::TableData),
        ]
    } else {
        seq![chunk(e.offset as int, e.length as int, e.tag.data, SfntChunkType::TableData)]
    }
}

/// The chunks of the tables that the entries describe, in their order.
pub open spec fn entries_chunks(es: Seq<SfntDirectoryEntry>) -> Seq<ChunkPosition<SfntChunkType>>
    decreases es.len(),
{
    if es.len() == 0 {
        Seq::empty()
    } else {
        entries_chunks(es.drop_last()) + entry_chunks(es.last())
    }
}

/// The chunks of a font with this header and directory: the header and
/// directory as one chunk, then the tables in the order of their offsets.
pub open spec fn spec_chunk_positions(h: SfntHeader, d: Seq<SfntDirectoryEntry>) -> Seq<
    ChunkPosition<SfntChunkType>,
> {
    seq![chunk(0, 12 + 16 * h.numTables, header_chunk_name(), SfntChunkType::HeaderDirectory)]
        + entries_chunks(spec_physical_order(d))
}

/// Whether a chunk of this kind is hashed, as OpenType fonts are signed
/// with C2PA: table data and the C2PA table are, the header with the
/// directory and the 'head' table's checksum adjustment are not.
pub open spec fn hashed_kind(k: SfntChunkType) -> bool {
    k == SfntChunkType::TableData || k == SfntChunkType::C2paTableData
}

/// Each chunk of the tables that entries describe is hashed exactly when it
/// is table data or the C2PA table, and a checksum adjustment is four bytes.
proof fn lemma_entries_chunk_flags(es: Seq<SfntDirectoryEntry>)
    ensures
        forall|i: int|
            #![trigger entries_chunks(es)[i]]
            0 <= i < entries_chunks(es).len() ==> {
                &&& entries_chunks(es)[i].should_hash == hashed_kind(entries_chunks(es)[i].chunk_type)
                &&& entries_chunks(es)[i].chunk_type == SfntChunkType::ChecksumAdjustment
                    ==> entries_chunks(es)[i].length == 4
            },
    decreases es.len(),
{
    if es.len() > 0 {
        lemma_entries_chunk_flags(es.drop_last());
        let a = entries_chunks(es.drop_last());
        let b = entry_chunks(es.last());
        assert forall|i: int| #![trigger entries_chunks(es)[i]] 0 <= i < entries_chunks(es).len() implies {
            &&& entries_chunks(es)[i].should_hash == hashed_kind(entries_chunks(es)[i].chunk_type)
            &&& entries_chunks(es)[i].chunk_type == SfntChunkType::ChecksumAdjustment
                ==> entries_chunks(es)[i].length == 4
        } by {
            if i < a.len() {
                assert(entries_chunks(es)[i] == a[i]);
            } else {
                assert(entries_chunks(es)[i] == b[i - a.len()]);
            }
        }
    }
}

/// The chunk that an entry is marked by: for the 'head' table, its four
/// bytes of checksum adjustment at offset 8, left out of the hash; for any
/// other table, the whole table, hashed.
pub open spec fn marks_entry(c: ChunkPosition<SfntChunkType>, e: SfntDirectoryEntry) -> bool {
    if e.tag@ == head_tag_bytes() {
        &&& c.offset == (e.offset + 8) as usize
        &&& c.length == 4
        &&& c.chunk_type == SfntChunkType::ChecksumAdjustment
        &&& !c.should_hash
    } else {
        &&& c.offset == e.offset as usize
        &&& c.length == e.length as usize
        &&& c.should_hash
    }
}

/// Every entry has a chunk that marks it among the chunks of the entries.
proof fn lemma_entries_chunks_mark(es: Seq<SfntDirectoryEntry>)
    ensures
        forall|j: int|
            #![trigger es[j]]
            0 <= j < es.len() ==> exists|i: int|
                0 <= i < entries_chunks(es).len() && marks_entry(#[trigger] entries_chunks(es)[i], es[j]),
    decreases es.len(),
{
    if es.len() > 0 {
        let ed = es.drop_last();
        lemma_entries_chunks_mark(ed);
        let a = entries_chunks(ed);
        let b = entry_chunks(es.last());
        let c = entries_chunks(es);
        assert(c == a + b);
        assert forall|j: int| #![trigger es[j]] 0 <= j < es.len() implies exists|i: int|
            0 <= i < c.len() && marks_entry(#[trigger] c[i], es[j]) by {
            if j < ed.len() {
                assert(es[j] == ed[j]);
                let i = choose|i: int| 0 <= i < a.len() && marks_entry(#[trigger] a[i], ed[j]);
                assert(c[i] == a[i]);
            } else {
                assert(es[j] == es.last());
                let e = es.last();
                if e.tag@ == c2pa_tag_bytes() {
                    assert(c[a.len() as int] == b[0]);
                    assert(marks_entry(c[a.len() as int], es[j]));
                } else if e.tag@ == head_tag_bytes() {
                    assert(c[a.len() as int + 1] == b[1]);
                    assert(marks_entry(c[a.len() as int + 1], es[j]));
                } else {
                    assert(c[a.len() as int] == b[0]);
                    assert(marks_entry(c[a.len() as int], es[j]));
                }
            }
        }
    }
}

/// Among the chunks of a font, every table in the order of the offsets has
/// a chunk that marks it: the 'head' table's four bytes of checksum
/// adjustment at offset 8, not hashed; any other table whole, hashed.
pub proof fn law_chunks_mark_tables(h: SfntHeader, d: Seq<SfntDirectoryEntry>)
    ensures
        forall|j: int|
            #![trigger spec_physical_order(d)[j]]
            0 <= j < spec_physical_order(d).len() ==> exists|i: int|
                0 <= i < spec_chunk_positions(h, d).len() && marks_entry(
                    #[trigger] spec_chunk_positions(h, d)[i],
                    spec_physical_order(d)[j],
                ),
{
    let es = spec_physical_order(d);
    lemma_entries_chunks_mark(es);
    let c = spec_chunk_positions(h, d);
    let a = entries_chunks(es);
    assert forall|j: int| #![trigger es[j]] 0 <= j < es.len() implies exists|i: int|
        0 <= i < c.len() && marks_entry(#[trigger] c[i], es[j]) by {
        let i = choose|i: int| 0 <= i < a.len() && marks_entry(#[trigger] a[i], es[j]);
        assert(c[i + 1] == a[i]);
    }
}

/// The chunks of a font are hashed exactly when they are table data or the
/// C2PA table: the header with the directory, and the four bytes of the
/// 'head' table's checksum adjustment, which changes when a C2PA table is
/// added, are left out of the hash.
pub proof fn law_chunk_hash_flags(h: SfntHeader, d: Seq<SfntDirectoryEntry>)
    ensures
        forall|i: int|
            #![trigger spec_chunk_positions(h, d)[i]]
            0 <= i < spec_chunk_positions(h, d).len() ==> {
                &&& spec_chunk_positions(h, d)[i].should_hash == hashed_kind(
                    spec_chunk_positions(h, d)[i].chunk_type,
                )
                &&& spec_chunk_positions(h, d)[i].chunk_type == SfntChunkType::ChecksumAdjustment
                    ==> spec_chunk_positions(h, d)[i].length == 4
            },
        spec_chunk_positions(h, d).len() >= 1,
        spec_chunk_positions(h, d)[0].chunk_type == SfntChunkType::HeaderDirectory,
        spec_chunk_positions(h, d)[0].offset == 0,
        !spec_chunk_positions(h, d)[0].should_hash,
{
    let es = spec_physical_order(d);
    lemma_entries_chunk_flags(es);
    let c = spec_chunk_positions(h, d);
    let a = entries_chunks(es);
    assert forall|i: int| #![trigger c[i]] 0 <= i < c.len() implies {
        &&& c[i].should_hash == hashed_kind(c[i].chunk_type)
        &&& c[i].chunk_type == SfntChunkType::ChecksumAdjustment ==> c[i].length == 4
    } by {
        if i > 0 {
            assert(c[i] == a[i - 1]);
        }
    }
}

/// Appends the chunks of the table that `entry` describes.
fn push_entry_chunks(positions: &mut Vec<ChunkPosition<SfntChunkType>>, entry: &SfntDirectoryEntry)
    ensures
        final(positions)@ == old(positions)@ + entry_chunks(*entry),
{
    if entry.tag.same(&FontTag::c2pa()) {
        positions.push(
            ChunkPosition::new(
                entry.offset as usize,
                entry.length as usize,
                entry.tag.data,
                SfntChunkType::C2paTableData,
                true,
            ),
        );
    } else if entry.tag.same(&FontTag::head()) {
        let offset = entry.offset as u64;
        positions.push(
            ChunkPosition::new(
                entry.offset as usize,
                8,
                [0x68u8, 0x65u8, 0x61u8, 0x30u8],
                SfntChunkType::TableData,
                true,
            ),
        );
        positions.push(
            ChunkPosition::new(
                (offset + 8) as usize,
                4,
                [0x68u8, 0x65u8, 0x61u8, 0x31u8],
                SfntChunkType::ChecksumAdjustment,
                false,
            ),
        );
        positions.push(
            ChunkPosition::new(
                (offset + 12) as usize,
                42,
                [0x68u8, 0x65u8, 0x61u8, 0x32u8],
                SfntChunkType::TableData,
                true,
            ),
        );
    } else {
        positions.push(
            ChunkPosition::new(
                entry.offset as usize,
                entry.length as usize,
                entry.tag.data,
                SfntChunkType::TableData,
                true,
            ),
        );
    }
    assert(positions@ =~= old(positions)@ + entry_chunks(*entry));
}

impl ChunkReader for SfntFont {
    type Error = FontIoError;
    type ChunkType = SfntChunkType;

    /// Reads the header and directory of the font in `reader` and gives its
    /// chunks: the header and directory, then each table in the order of
    /// the offsets.
    fn get_chunk_positions(reader: &mut Cursor) -> (r: Result<
        Vec<ChunkPosition<SfntChunkType>>,
        FontIoError,
    >)
        ensures
            ({
                let rem = old(reader)@.remaining();
                match spec_parse_header(rem) {
                    Err(e) => r == Err::<Vec<ChunkPosition<SfntChunkType>>, FontIoError>(e),
                    Ok(h) => if rem.len() < 12 + 16 * h.numTables {
                        r == Err::<Vec<ChunkPosition<SfntChunkType>>, FontIoError>(
                            FontIoError::IoError(IoErrorKind::UnexpectedEof),
                        )
                    } else {
                        r matches Ok(v) && exists|d: Seq<SfntDirectoryEntry>|
                            {
                                &&& d.len() == h.numTables
                                &&& #[trigger] entries_parsed_from(
                                    d,
                                    rem.subrange(12, rem.len() as int),
                                )
                                &&& v@ == spec_chunk_positions(h, d)
                            }
                    },
                }
            }),
            r matches Ok(v) ==> forall|i: int|
                #![trigger v@[i]]
                0 <= i < v@.len() ==> v@[i].should_hash == hashed_kind(v@[i].chunk_type),
    {
        let ghost s = old(reader)@;
        let header = match SfntHeader::from_reader(reader) {
            Ok(h) => h,
            Err(e) => return Err(e),
        };
        proof {
            crate::io::lemma_remaining_advance(s, 12);
        }
        let size_to_read = header.numTables as usize * SfntDirectoryEntry::SIZE;
        let directory = match SfntDirectory::from_reader_with_count(
            reader,
            header.numTables as usize,
        ) {
            Ok(d) => d,
            Err(e) => return Err(e),
        };
        let mut positions: Vec<ChunkPosition<SfntChunkType>> = Vec::new();
        positions.push(
            ChunkPosition::new(
                0,
                SfntHeader::SIZE + size_to_read,
                [0x20u8, 0x48u8, 0x44u8, 0x52u8],
                SfntChunkType::HeaderDirectory,
                false,
            ),
        );
        let phys = directory.physical_order();
        let ghost order = spec_physical_order(directory@);
        let mut i: usize = 0;
        while i < phys.len()
            invariant
                i <= phys@.len(),
                phys@.len() == order.len(),
                forall|q: int| 0 <= q < phys@.len() ==> *#[trigger] phys@[q] == order[q],
                positions@ == seq![
                    chunk(
                        0,
                        12 + 16 * header.numTables,
                        header_chunk_name(),
                        SfntChunkType::HeaderDirectory,
                    ),
                ] + entries_chunks(order.take(i as int)),
            decreases phys@.len() - i,
        {
            proof {
                assert(order.take(i + 1).drop_last() =~= order.take(i as int));
                assert(order.take(i + 1).last() == order[i as int]);
            }
            push_entry_chunks(&mut positions, phys[i]);
            proof {
                assert(positions@ =~= seq![
                    chunk(
                        0,
                        12 + 16 * header.numTables,
                        header_chunk_name(),
                        SfntChunkType::HeaderDirectory,
                    ),
                ] + entries_chunks(order.take(i + 1)));
            }
            i = i + 1;
        }
        proof {
            assert(order.take(order.len() as int) =~= order);
            assert(entries_parsed_from(
                directory@,
                s.remaining().subrange(12, s.remaining().len() as int),
            ));
            law_chunk_hash_flags(header, directory@);
        }
        Ok(positions)
    }
}

/// What stubbing the DSIG table of a font stream found.
#[derive(Debug, Clone, Copy, PartialEq, Eq, Structural)]
pub enum DsigStubOutcome {
    /// The font has no DSIG table; the stream was copied.
    NotPresent,
    /// The font's DSIG table is a stub already; the stream was copied.
    AlreadyStubbed,
    /// The font's DSIG table was replaced with a stub and the font written.
    Stubbed,
}

impl SfntFont {
    /// Whether the layout of the tables that the directory names, from
    /// `start`, fits 32-bit offsets.
    fn layout_fits_from(&self, start: u32) -> (r: bool)
        ensures
            r == layout_fits(spec_physical_order(self.directory@), self.tables@, start as int),
    {
        let phys = self.directory.physical_order();
        let ghost order = spec_physical_order(self.directory@);
        let ghost tables = self.tables@;
        let mut running: u64 = start as u64;
        let mut i: usize = 0;
        proof {
            assert(order.take(0) =~= Seq::<SfntDirectoryEntry>::empty());
        }
        while i < phys.len()
            invariant
                i <= phys@.len(),
                phys@.len() == order.len(),
                order == spec_physical_order(self.directory@),
                tables == self.tables@,
                forall|q: int| 0 <= q < phys@.len() ==> *#[trigger] phys@[q] == order[q],
                running == layout_end(order.take(i as int), tables, start as int),
                running <= u32::MAX,
                forall|j: int| 0 <= j <= i ==> #[trigger] layout_end(order.take(j), tables, start as int) <= u32::MAX,
                forall|j: int|
                    0 <= j < i && tables.contains_key(order[j].tag.spec_key()) ==> #[trigger] tables[order[j].tag.spec_key()].len_spec()
                        <= u32::MAX - 3,
            decreases phys@.len() - i,
        {
            let entry = phys[i];
            proof {
                assert(order.take(i + 1).drop_last() =~= order.take(i as int));
                assert(order.take(i + 1).last() == order[i as int]);
            }
            match self.tables.get(&entry.tag.key()) {
                Some(t) => {
                    let len = t.len();
                    if len > u32::MAX - 3 {
                        return false;
                    }
                    running = running + align_to_four(len) as u64;
                    if running > u32::MAX as u64 {
                        proof {
                            assert(layout_end(order.take(i + 1), tables, start as int) > u32::MAX);
                        }
                        return false;
                    }
                },
                None => {},
            }
            proof {
                assert forall|j: int| 0 <= j <= i + 1 implies #[trigger] layout_end(
                    order.take(j),
                    tables,
                    start as int,
                ) <= u32::MAX by {
                    if j == i + 1 {
                        assert(layout_end(order.take(j), tables, start as int) == running);
                    }
                }
            }
            i = i + 1;
        }
        assert(order.take(order.len() as int) =~= order);
        true
    }

    /// Whether writing the font is within what an SFNT file can hold: a
    /// table count that a header can describe, and offsets that fit.
    pub fn can_write(&self) -> (r: bool)
        ensures
            r <==> spec_table_count(*self) < 4096 && (spec_write_checks_pass(*self) ==> layout_fits(
                spec_physical_order(self.directory@),
                self.tables@,
                spec_first_offset(*self),
            )),
    {
        let count16 = self.tables.len() as u16;
        if count16 >= 4096 {
            return false;
        }
        let table_diff: i32 = count16 as i32 - self.header.numTables as i32;
        if count16 == 0 || table_diff < -1 || table_diff > 1 {
            return true;
        }
        let start: u32 = 12u32 + 16u32 * (count16 as u32);
        self.layout_fits_from(start)
    }
}

/// The first entry of `d` with the tag `tag`, if any.
fn find_entry(d: &SfntDirectory, tag: &FontTag) -> (r: Option<SfntDirectoryEntry>)
    ensures
        match r {
            Some(e) => exists|i: int|
                0 <= i < d@.len() && #[trigger] d@[i] == e && e.tag@ == tag@ && forall|j: int|
                    0 <= j < i ==> (#[trigger] d@[j]).tag@ != tag@,
            None => !has_tag(d@, *tag),
        },
{
    let entries = d.entries();
    let mut i: usize = 0;
    while i < entries.len()
        invariant
            i <= entries@.len(),
            entries@ == d@,
            forall|q: int| 0 <= q < i ==> #[trigger] entries@[q].tag@ != tag@,
        decreases entries@.len() - i,
    {
        if entries[i].tag.same(tag) {
            return Some(entries[i]);
        }
        i = i + 1;
    }
    None
}

/// Copies the whole stream `reader` to `dest`.
fn copy_stream(reader: &mut Cursor, dest: &mut Cursor) -> (r: Result<(), FontIoError>)
    ensures
        final(dest)@ == old(dest)@.after_write(old(reader)@.data),
        r is Ok <==> old(dest)@.write_ok(old(reader)@.data),
        r matches Err(e) ==> e == FontIoError::IoError(IoErrorKind::WriteZero),
{
    reader.set_position(0);
    let bytes = reader.read_to_end();
    proof {
        assert(bytes@ =~= old(reader)@.data);
    }
    match dest.write_all(bytes.as_slice()) {
        Ok(()) => Ok(()),
        Err(e) => Err(FontIoError::IoError(e)),
    }
}

/// The font read from a stream in state `s`, with its DSIG table stubbed,
/// is what writing `bytes` wrote.
pub open spec fn stubbed_font_written(s: StreamState, bytes: Seq<u8>) -> bool {
    exists|g: SfntFont, f: SfntFont|
        {
            &&& #[trigger] spec_font_read(s, Ok::<SfntFont, FontIoError>(g))
            &&& #[trigger] dsig_stubbed_from(g, f)
            &&& spec_write_checks_pass(f)
            &&& bytes == spec_written_bytes(f)
        }
}

/// Every font that stubbing the DSIG table of `g` can give passes the
/// checks of writing, fits an SFNT file, and can be written to a stream in
/// state `dest`.
pub open spec fn stubbed_writable(g: SfntFont, dest: StreamState) -> bool {
    forall|f: SfntFont|
        #[trigger] dsig_stubbed_from(g, f) ==> {
            &&& spec_table_count(f) < 4096
            &&& spec_write_checks_pass(f)
            &&& layout_fits(spec_physical_order(f.directory@), f.tables@, spec_first_offset(f))
            &&& dest.write_ok(spec_written_bytes(f))
        }
}

/// The stream in state `s` holds a font that reads whole, and whose DSIG
/// table stubbed can be written to a stream in state `dest`.
pub open spec fn font_rewritable(s: StreamState, dest: StreamState) -> bool {
    forall|x: Result<SfntFont, FontIoError>|
        #[trigger] spec_font_read(s, x) ==> (x matches Ok(g) && stubbed_writable(g, dest))
}

/// Reads the font that the whole stream holds, stubs its DSIG table and
/// writes it.
fn rewrite_stubbed(reader: &mut Cursor, dest: &mut Cursor) -> (r: Result<(), FontIoError>)
    ensures
        r is Ok ==> exists|bytes: Seq<u8>|
            stubbed_font_written(old(reader)@.at(0), bytes) && final(dest)@ == old(dest)@.after_write(
                bytes,
            ),
        font_rewritable(old(reader)@.at(0), old(dest)@) ==> r is Ok,
{
    reader.set_position(0);
    let ghost s0 = reader@;
    let mut font = match SfntFont::from_reader(reader) {
        Ok(f) => f,
        Err(e) => return Err(e),
    };
    let ghost read = font;
    match font.stub_dsig() {
        Ok(()) => {},
        Err(e) => return Err(e),
    }
    proof {
        if font_rewritable(s0, old(dest)@) {
            assert(spec_font_read(s0, Ok::<SfntFont, FontIoError>(read)));
            assert(dsig_stubbed_from(read, font));
        }
    }
    if !font.can_write() {
        return Err(FontIoError::SaveError(FontSaveError::FontTooLarge));
    }
    let ghost before = font;
    proof {
        assert(spec_font_read(s0, Ok::<SfntFont, FontIoError>(read)));
        assert(dsig_stubbed_from(read, before));
    }
    match font.write(dest) {
        Ok(()) => {
            proof {
                assert(spec_write_checks_pass(before));
                assert(stubbed_font_written(s0, spec_written_bytes(before)));
            }
            Ok(())
        },
        Err(e) => Err(e),
    }
}

/// Whether the DSIG table that the first entry of `d` with the DSIG tag
/// describes, read from a stream in state `s`, is a stub: `stubbed` says
/// which.
pub open spec fn first_dsig_read_stubbed(d: Seq<SfntDirectoryEntry>, s: StreamState, stubbed: bool) -> bool {
    forall|i: int, t: TableDSIG|
        is_first_dsig(d, i) && #[trigger] TableDSIG::read_exact_result(
            s,
            d[i].offset as usize,
            d[i].length as usize,
            Ok(t),
        ) ==> t.spec_is_stubbed() == stubbed
}

/// A font whose first DSIG entry reads only as tables whose flags are not
/// the one that asks not to re-sign (1), such as the usual placeholder of
/// flags 0, has a DSIG table that is no stub: `stub_dsig_stream` cannot
/// copy it as already stubbed, and rewrites it with a stub where the font
/// can be read and written.
pub proof fn law_unstubbed_dsig(d: Seq<SfntDirectoryEntry>, s: StreamState, i: int)
    requires
        is_first_dsig(d, i),
        forall|t: TableDSIG|
            #[trigger] TableDSIG::read_exact_result(s, d[i].offset as usize, d[i].length as usize, Ok(t))
                ==> t.flags != 1,
    ensures
        first_dsig_read_stubbed(d, s, false),
{
    assert forall|j: int, t: TableDSIG|
        is_first_dsig(d, j) && #[trigger] TableDSIG::read_exact_result(
            s,
            d[j].offset as usize,
            d[j].length as usize,
            Ok(t),
        ) implies t.spec_is_stubbed() == false by {
        if j < i {
            assert(d[j].tag@ != dsig_tag()@);
        } else if j > i {
            assert(d[i].tag@ != dsig_tag()@);
        }
        crate::sfnt::table::dsig::law_stub_is_exact(t);
    }
}

/// The entry at `i` is the first of `d` with the DSIG tag.
pub open spec fn is_first_dsig(d: Seq<SfntDirectoryEntry>, i: int) -> bool {
    &&& 0 <= i < d.len()
    &&& d[i].tag@ == dsig_tag()@
    &&& forall|j: int| 0 <= j < i ==> (#[trigger] d[j]).tag@ != dsig_tag()@
}

/// The first DSIG entry of a directory parsed from the same bytes as `dir`
/// is where the first DSIG entry of `dir` is.
proof fn lemma_first_dsig_entry(
    dir: Seq<SfntDirectoryEntry>,
    d: Seq<SfntDirectoryEntry>,
    b: Seq<u8>,
    entry: SfntDirectoryEntry,
)
    requires
        d.len() == dir.len(),
        entries_parsed_from(dir, b),
        entries_parsed_from(d, b),
        exists|i: int|
            0 <= i < dir.len() && #[trigger] dir[i] == entry && entry.tag@ == dsig_tag()@ && forall|j: int|
                0 <= j < i ==> (#[trigger] dir[j]).tag@ != dsig_tag()@,
    ensures
        forall|i: int|
            #![trigger is_first_dsig(d, i)]
            is_first_dsig(d, i) ==> d[i].offset == entry.offset && d[i].length == entry.length,
{
    crate::sfnt::roundtrip::lemma_entries_parse_unique(dir, d, b);
    let i0 = choose|i: int|
        0 <= i < dir.len() && #[trigger] dir[i] == entry && entry.tag@ == dsig_tag()@ && forall|j: int|
            0 <= j < i ==> (#[trigger] dir[j]).tag@ != dsig_tag()@;
    assert forall|i: int| #![trigger is_first_dsig(d, i)] is_first_dsig(d, i) implies d[i].offset == entry.offset && d[i].length == entry.length by {
        if i < i0 {
            assert(dir[i].tag@ == d[i].tag@);
        } else if i > i0 {
            assert(d[i0].tag@ == dir[i0].tag@);
        }
        assert(i == i0);
    }
}

/// The first DSIG entry of a directory parsed from the same bytes as `dir`
/// describes the table that `dsig` was read as, and reads as a stub
/// exactly when `dsig` is one.
proof fn lemma_first_dsig_read(
    dir: Seq<SfntDirectoryEntry>,
    d: Seq<SfntDirectoryEntry>,
    b: Seq<u8>,
    entry: SfntDirectoryEntry,
    s: StreamState,
    dsig: TableDSIG,
)
    requires
        d.len() == dir.len(),
        entries_parsed_from(dir, b),
        entries_parsed_from(d, b),
        exists|i: int|
            0 <= i < dir.len() && #[trigger] dir[i] == entry && entry.tag@ == dsig_tag()@ && forall|j: int|
                0 <= j < i ==> (#[trigger] dir[j]).tag@ != dsig_tag()@,
        TableDSIG::read_exact_result(s, entry.offset as usize, entry.length as usize, Ok(dsig)),
    ensures
        first_dsig_read_stubbed(d, s, dsig.spec_is_stubbed()),
{
    lemma_first_dsig_entry(dir, d, b, entry);
    assert forall|i: int, t: TableDSIG|
        is_first_dsig(d, i) && #[trigger] TableDSIG::read_exact_result(
            s,
            d[i].offset as usize,
            d[i].length as usize,
            Ok(t),
        ) implies t.spec_is_stubbed() == dsig.spec_is_stubbed() by {
        assert(d[i].offset == entry.offset && d[i].length == entry.length);
    }
}

/// Replaces the DSIG table of the font that the whole stream `reader`
/// holds with a stub, writing the result to `dest`. A font without a DSIG
/// table, or whose DSIG table is a stub already, is copied unchanged.
pub fn stub_dsig_stream(reader: &mut Cursor, dest: &mut Cursor) -> (r: Result<
    DsigStubOutcome,
    FontIoError,
>)
    ensures
        ({
            let s0 = old(reader)@.at(0);
            let rem = s0.remaining();
            match spec_parse_header(rem) {
                Err(e) => r == Err::<DsigStubOutcome, FontIoError>(e),
                Ok(h) => if rem.len() < 12 + 16 * h.numTables {
                    r == Err::<DsigStubOutcome, FontIoError>(
                        FontIoError::IoError(IoErrorKind::UnexpectedEof),
                    )
                } else {
                    &&& forall|d: Seq<SfntDirectoryEntry>|
                        d.len() == h.numTables && #[trigger] entries_parsed_from(
                            d,
                            rem.subrange(12, rem.len() as int),
                        ) ==> {
                            &&& r matches Ok(DsigStubOutcome::NotPresent) ==> !has_tag(d, dsig_tag())
                            &&& r matches Ok(DsigStubOutcome::AlreadyStubbed) ==> has_tag(d, dsig_tag())
                                && first_dsig_read_stubbed(d, s0, true)
                            &&& r matches Ok(DsigStubOutcome::Stubbed) ==> has_tag(d, dsig_tag())
                                && first_dsig_read_stubbed(d, s0, false)
                            &&& !has_tag(d, dsig_tag()) && old(dest)@.write_ok(old(reader)@.data) ==> r
                                == Ok::<DsigStubOutcome, FontIoError>(DsigStubOutcome::NotPresent)
                            &&& forall|i: int|
                                #![trigger is_first_dsig(d, i)]
                                is_first_dsig(d, i) && TableDSIG::read_exact_ok(
                                    s0,
                                    d[i].offset as usize,
                                    d[i].length as usize,
                                ) && first_dsig_read_stubbed(d, s0, true) && old(dest)@.write_ok(
                                    old(reader)@.data,
                                ) ==> r == Ok::<DsigStubOutcome, FontIoError>(
                                    DsigStubOutcome::AlreadyStubbed,
                                )
                            &&& forall|i: int|
                                #![trigger is_first_dsig(d, i)]
                                is_first_dsig(d, i) && TableDSIG::read_exact_ok(
                                    s0,
                                    d[i].offset as usize,
                                    d[i].length as usize,
                                ) && first_dsig_read_stubbed(d, s0, false) && font_rewritable(
                                    s0,
                                    old(dest)@,
                                ) ==> r == Ok::<DsigStubOutcome, FontIoError>(DsigStubOutcome::Stubbed)
                        }
                    &&& r matches Ok(DsigStubOutcome::NotPresent) ==> final(dest)@ == old(
                        dest,
                    )@.after_write(old(reader)@.data)
                    &&& r matches Ok(DsigStubOutcome::AlreadyStubbed) ==> final(dest)@ == old(
                        dest,
                    )@.after_write(old(reader)@.data)
                    &&& r matches Ok(DsigStubOutcome::Stubbed) ==> exists|bytes: Seq<u8>|
                        stubbed_font_written(s0, bytes) && final(dest)@ == old(dest)@.after_write(
                            bytes,
                        )
                },
            }
        }),
{
    reader.set_position(0);
    let ghost s0 = reader@;
    let header = match SfntHeader::from_reader(reader) {
        Ok(h) => h,
        Err(e) => return Err(e),
    };
    let directory = match SfntDirectory::from_reader_with_count(reader, header.numTables as usize) {
        Ok(d) => d,
        Err(e) => return Err(e),
    };
    proof {
        let rem = s0.remaining();
        crate::io::lemma_remaining_advance(s0, 12);
        assert forall|d: Seq<SfntDirectoryEntry>|
            d.len() == header.numTables && #[trigger] entries_parsed_from(
                d,
                rem.subrange(12, rem.len() as int),
            ) implies has_tag(d, dsig_tag()) == has_tag(directory@, dsig_tag()) by {
            crate::sfnt::roundtrip::lemma_entries_parse_unique(
                directory@,
                d,
                rem.subrange(12, rem.len() as int),
            );
            if has_tag(d, dsig_tag()) {
                let i = choose|i: int| 0 <= i < d.len() && #[trigger] d[i].tag@ == dsig_tag()@;
                assert(directory@[i].tag@ == dsig_tag()@);
            }
            if has_tag(directory@, dsig_tag()) {
                let i = choose|i: int| 0 <= i < directory@.len() && #[trigger] directory@[i].tag@ == dsig_tag()@;
                assert(d[i].tag@ == dsig_tag()@);
            }
        }
    }
    match find_entry(&directory, &FontTag::dsig()) {
        None => {
            match copy_stream(reader, dest) {
                Ok(()) => Ok(DsigStubOutcome::NotPresent),
                Err(e) => Err(e),
            }
        },
        Some(entry) => {
            let ghost before = reader@;
            let dsig_read = TableDSIG::from_reader_exact(
                reader,
                entry.offset as usize,
                entry.length as usize,
            );
            proof {
                let rem = s0.remaining();
                assert(before.data == s0.data);
                assert(before.at(entry.offset as int) == s0.at(entry.offset as int));
                assert forall|d: Seq<SfntDirectoryEntry>, i: int|
                    d.len() == header.numTables && #[trigger] entries_parsed_from(
                        d,
                        rem.subrange(12, rem.len() as int),
                    ) && #[trigger] is_first_dsig(d, i) implies d[i].offset == entry.offset && d[i].length
                    == entry.length by {
                    lemma_first_dsig_entry(directory@, d, rem.subrange(12, rem.len() as int), entry);
                }
            }
            let dsig = match dsig_read {
                Ok(t) => t,
                Err(e) => {
                    return Err(e);
                },
            };
            proof {
                let rem = s0.remaining();
                assert(TableDSIG::read_exact_result(
                    s0,
                    entry.offset as usize,
                    entry.length as usize,
                    Ok(dsig),
                ));
                assert forall|d: Seq<SfntDirectoryEntry>|
                    d.len() == header.numTables && #[trigger] entries_parsed_from(
                        d,
                        rem.subrange(12, rem.len() as int),
                    ) implies first_dsig_read_stubbed(d, s0, dsig.spec_is_stubbed()) by {
                    lemma_first_dsig_read(directory@, d, rem.subrange(12, rem.len() as int), entry, s0, dsig);
                }
                assert forall|d: Seq<SfntDirectoryEntry>, i: int|
                    d.len() == header.numTables && #[trigger] entries_parsed_from(
                        d,
                        rem.subrange(12, rem.len() as int),
                    ) && #[trigger] is_first_dsig(d, i) && first_dsig_read_stubbed(
                        d,
                        s0,
                        true,
                    ) implies dsig.spec_is_stubbed() by {
                    assert(d[i].offset == entry.offset && d[i].length == entry.length);
                    assert(TableDSIG::read_exact_result(
                        s0,
                        d[i].offset as usize,
                        d[i].length as usize,
                        Ok(dsig),
                    ));
                }
            }
            if dsig.is_stubbed() {
                match copy_stream(reader, dest) {
                    Ok(()) => Ok(DsigStubOutcome::AlreadyStubbed),
                    Err(e) => Err(e),
                }
            } else {
                match rewrite_stubbed(reader, dest) {
                    Ok(()) => Ok(DsigStubOutcome::Stubbed),
                    Err(e) => Err(e),
                }
            }
        },
    }
}

} // verus!
