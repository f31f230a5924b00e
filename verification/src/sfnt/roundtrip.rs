//! Reading back a written font: the bytes that writing a font writes read
//! as a font with the header and directory that writing made, and with the
//! tables that were written.

use crate::sfnt::directory::{
    entries_bytes, entries_parsed_from, law_entry_roundtrip, lemma_entries_checksum_is_bytes_checksum,
    offset_keys, reorder, spec_physical_order, spec_tag_order, tag_keys, SfntDirectoryEntry,
};
use crate::io::StreamState;
use crate::sfnt::font::{
    c2pa_key, dsig_key, has_tag, head_key, layout_end, layout_entries, layout_fits,
    lemma_tables_bytes_concat, spec_adjusted_tables, spec_adjustment, spec_first_offset,
    spec_font_checksum, spec_laid_out, spec_write_checks_pass, spec_written,
    spec_written_bytes, tables_bytes, SfntFont, all_tables_readable, some_table_unreadable,
    spec_font_read, tables_read_from, last_with_tag,
};
use crate::error::FontIoError;
use crate::sfnt::header::{law_header_roundtrip, lemma_header_checksum_is_bytes_checksum, spec_parse_header, SfntHeader};
use crate::sfnt::table::generic::pad_len;
use crate::sfnt::table::c2pa::law_c2pa_roundtrip;
use crate::sfnt::table::dsig::law_dsig_roundtrip;
use crate::sfnt::table::generic::law_generic_roundtrip;
use crate::sfnt::table::head::{law_head_roundtrip, HEAD_TABLE_MAGIC_NUMBER};
use crate::tag::{
    c2pa_tag, c2pa_tag_bytes, dsig_tag, dsig_tag_bytes, head_tag, head_tag_bytes, lemma_key_injective,
    FontTag,
};
use crate::sfnt::table::c2pa::{spec_parse_c2pa, C2PAParseFailure, C2PAView, TableC2PA};
use crate::sfnt::table::dsig::TableDSIG;
use crate::sfnt::table::generic::TableGeneric;
use crate::sfnt::table::head::TableHead;
use crate::sfnt::table::named_table::NamedTable;
use crate::sfnt::integrity::{
    entry_bytes, lemma_reorder_sum, lemma_tables_bytes_checksum, only_last_unaligned, table_contribution,
    tags_distinct,
};
use crate::utils::{spec_checksum, words_sum};
use crate::sort::{lemma_stable_order_exists, lemma_stable_order_injective, stable_order};
use crate::utils::spec_align4;
use crate::{FontDataChecksum, FontDataWrite, FontTable};
use crate::byte_order::be_u16;
use vstd::prelude::*;

verus! {

/// Where laying out puts each table is where its bytes start among the
/// bytes of the tables before it.
#[verifier::spinoff_prover]
proof fn lemma_layout_positions(
    es: Seq<SfntDirectoryEntry>,
    t: Map<u32, NamedTable>,
    t2: Map<u32, NamedTable>,
    start: int,
)
    requires
        start >= 0,
        forall|i: int|
            #![trigger es[i]]
            0 <= i < es.len() && t.contains_key(es[i].tag.spec_key()) ==> t2.contains_key(es[i].tag.spec_key())
                && t2[es[i].tag.spec_key()].bytes_spec().len() == spec_align4(
                t[es[i].tag.spec_key()].len_spec() as int,
            ),
        layout_fits(es, t, start),
    ensures
        ({
            let l = layout_entries(es, t, start);
            &&& tables_bytes(l, t2).len() == layout_end(es, t, start) - start
            &&& forall|i: int|
                0 <= i < l.len() ==> #[trigger] l[i].offset == start + tables_bytes(l.take(i), t2).len()
            &&& forall|i: int|
                0 <= i < l.len() ==> t.contains_key(#[trigger] l[i].tag.spec_key()) && l[i].length
                    == t[l[i].tag.spec_key()].len_spec()
        }),
    decreases es.len(),
{
    if es.len() > 0 {
        let ed = es.drop_last();
        assert forall|i: int| 0 <= i <= ed.len() implies #[trigger] layout_end(ed.take(i), t, start)
            <= u32::MAX by {
            assert(ed.take(i) =~= es.take(i));
        }
        assert forall|i: int|
            0 <= i < ed.len() && t.contains_key(ed[i].tag.spec_key()) implies #[trigger] t[ed[i].tag.spec_key()].len_spec()
            <= u32::MAX - 3 by {
            assert(ed[i] == es[i]);
        }
        assert forall|i: int|
            #![trigger ed[i]]
            0 <= i < ed.len() && t.contains_key(ed[i].tag.spec_key()) implies t2.contains_key(ed[i].tag.spec_key())
                && t2[ed[i].tag.spec_key()].bytes_spec().len() == spec_align4(
                t[ed[i].tag.spec_key()].len_spec() as int,
            ) by {
            assert(ed[i] == es[i]);
        }
        lemma_layout_positions(ed, t, t2, start);
        let prev = layout_entries(ed, t, start);
        let k = es.last().tag.spec_key();
        assert(es.last() == es[es.len() - 1]);
        if t.contains_key(k) {
            let l = layout_entries(es, t, start);
            assert(l.drop_last() =~= prev);
            assert(l.last().tag == es.last().tag);
            assert(tables_bytes(l, t2) == tables_bytes(prev, t2) + t2[k].bytes_spec());
            assert(es.take(es.len() - 1) =~= ed);
            assert(layout_end(ed, t, start) <= u32::MAX);
            assert forall|i: int| 0 <= i < l.len() implies #[trigger] l[i].offset == start
                + tables_bytes(l.take(i), t2).len() by {
                if i < prev.len() {
                    assert(l.take(i) =~= prev.take(i));
                } else {
                    assert(l.take(i) =~= prev);
                }
            }
        }
    }
}

/// The table is of the kind that its key's tag is read as, and reads back
/// whole: a 'head' table holds the magic number, the parts of a C2PA
/// table fit their fields, and the bytes of any other table fit a 32-bit
/// length.
pub open spec fn kind_fits_key(k: u32, t: NamedTable) -> bool {
    match t {
        NamedTable::Head(h) => k == head_key() && h.magicNumber == HEAD_TABLE_MAGIC_NUMBER,
        NamedTable::DSIG(_) => k == dsig_key(),
        NamedTable::C2PA(c) => k == c2pa_key() && c.fits(),
        NamedTable::Generic(g) => k != head_key() && k != dsig_key() && k != c2pa_key()
            && g.data@.len() <= u32::MAX,
    }
}

/// A table read back as the written table: a 'head' table whole; a DSIG
/// table's version, count and flags, and no more of it; a C2PA table's
/// versions, URI and store; the bytes of any other table.
pub open spec fn reads_back_as(read: NamedTable, written: NamedTable) -> bool {
    match (read, written) {
        (NamedTable::Head(a), NamedTable::Head(b)) => a == b,
        (NamedTable::DSIG(a), NamedTable::DSIG(b)) => {
            &&& a.version == b.version
            &&& a.numSignatures == b.numSignatures
            &&& a.flags == b.flags
            &&& a.data@.len() == 0
        },
        (NamedTable::C2PA(a), NamedTable::C2PA(b)) => a@ == b@,
        (NamedTable::Generic(a), NamedTable::Generic(b)) => a.data@ == b.data@,
        _ => false,
    }
}

/// The tags of the three tables that the library reads by kind, which
/// differ from one another.
proof fn lemma_known_tags()
    ensures
        dsig_tag()@ == dsig_tag_bytes(),
        head_tag()@ == head_tag_bytes(),
        c2pa_tag()@ == c2pa_tag_bytes(),
        dsig_tag_bytes() != head_tag_bytes(),
        dsig_tag_bytes() != c2pa_tag_bytes(),
        head_tag_bytes() != c2pa_tag_bytes(),
{
    assert(dsig_tag()@ =~= dsig_tag_bytes());
    assert(head_tag()@ =~= head_tag_bytes());
    assert(c2pa_tag()@ =~= c2pa_tag_bytes());
    assert(dsig_tag_bytes()[0] != head_tag_bytes()[0]);
    assert(dsig_tag_bytes()[0] != c2pa_tag_bytes()[0]);
    assert(head_tag_bytes()[0] != c2pa_tag_bytes()[0]);
}

/// Which kind a tag is read as, from its key.
proof fn lemma_tag_kind(tag: FontTag)
    ensures
        (tag@ == dsig_tag_bytes()) == (tag.spec_key() == dsig_key()),
        (tag@ == head_tag_bytes()) == (tag.spec_key() == head_key()),
        (tag@ == c2pa_tag_bytes()) == (tag.spec_key() == c2pa_key()),
        dsig_tag_bytes() != head_tag_bytes(),
        dsig_tag_bytes() != c2pa_tag_bytes(),
        head_tag_bytes() != c2pa_tag_bytes(),
{
    lemma_known_tags();
    lemma_key_injective(tag, dsig_tag());
    lemma_key_injective(tag, head_tag());
    lemma_key_injective(tag, c2pa_tag());
}

proof fn lemma_head_reads_back(h: TableHead, s: StreamState, offset: u32, rest: Seq<u8>, r: TableHead)
    requires
        s.at(offset as int).remaining() == h.spec_bytes() + rest,
        h.magicNumber == HEAD_TABLE_MAGIC_NUMBER,
    ensures
        TableHead::read_exact_ok(s, offset as usize, 54),
        TableHead::read_exact_result(s, offset as usize, 54, Ok(r)) ==> r == h,
{
    law_head_roundtrip(h, rest);
}

proof fn lemma_dsig_reads_back(d: TableDSIG, s: StreamState, offset: u32, rest: Seq<u8>, r: TableDSIG)
    requires
        s.at(offset as int).remaining() == d.spec_bytes() + rest,
    ensures
        TableDSIG::read_exact_ok(s, offset as usize, 8),
        TableDSIG::read_exact_result(s, offset as usize, 8, Ok(r)) ==> {
            &&& r.version == d.version
            &&& r.numSignatures == d.numSignatures
            &&& r.flags == d.flags
            &&& r.data@.len() == 0
        },
{
    law_dsig_roundtrip(&d, rest);
    let rem = s.at(offset as int).remaining();
    assert(rem.subrange(8, 8).len() == 0);
}

/// The length of a C2PA table whose parts fit is the length of its bytes.
proof fn lemma_c2pa_len(c: TableC2PA)
    requires
        c.fits(),
    ensures
        c.len_spec() == c.spec_bytes().len(),
{
    assert(c.spec_bytes().len() == 20 + c.uri_bytes().len() + c.store_bytes().len());
}

/// The bytes `b` parse as the C2PA table `v`.
#[verifier::opaque]
spec fn c2pa_parses_as(b: Seq<u8>, v: C2PAView) -> bool {
    spec_parse_c2pa(b) == Ok::<C2PAView, C2PAParseFailure>(v)
}

/// The bytes of a C2PA table whose parts fit parse as the table, and are
/// as long as the table says.
#[verifier::spinoff_prover]
proof fn lemma_c2pa_written_parses(c: TableC2PA)
    requires
        c.fits(),
    ensures
        c2pa_parses_as(c.spec_bytes(), c@),
        c.len_spec() == c.spec_bytes().len(),
        20 <= c.spec_bytes().len() <= u32::MAX,
{
    lemma_c2pa_len(c);
    law_c2pa_roundtrip(c);
    assert(c2pa_parses_as(c.spec_bytes(), c@)) by {
        reveal(c2pa_parses_as);
    }
}

/// Reading a C2PA table where bytes that parse were written gives what
/// they parse as.
proof fn lemma_c2pa_reads_back(b: Seq<u8>, v: C2PAView, s: StreamState, offset: u32, rest: Seq<u8>, r: TableC2PA)
    requires
        s.at(offset as int).remaining() == b + rest,
        b.len() >= 20,
        b.len() <= u32::MAX,
        c2pa_parses_as(b, v),
    ensures
        TableC2PA::read_exact_ok(s, offset as usize, b.len() as usize),
        TableC2PA::read_exact_result(s, offset as usize, b.len() as usize, Ok(r)) ==> r@ == v,
{
    reveal(c2pa_parses_as);
    lemma_take_prefix(b, rest);
    lemma_c2pa_read_parsed(s, offset as usize, b.len() as usize, v, r);
}

/// A prefix taken back off a concatenation.
proof fn lemma_take_prefix(a: Seq<u8>, b: Seq<u8>)
    ensures
        (a + b).take(a.len() as int) == a,
{
    assert((a + b).take(a.len() as int) =~= a);
}

/// Reading a C2PA table whose bytes parse gives what they parse as.
proof fn lemma_c2pa_read_parsed(s: StreamState, offset: usize, size: usize, v: C2PAView, r: TableC2PA)
    requires
        size >= 20,
        s.at(offset as int).remaining().len() >= size,
        spec_parse_c2pa(s.at(offset as int).remaining().take(size as int)) == Ok::<C2PAView, C2PAParseFailure>(v),
    ensures
        TableC2PA::read_exact_ok(s, offset, size),
        TableC2PA::read_exact_result(s, offset, size, Ok(r)) ==> r@ == v,
{
}

proof fn lemma_generic_reads_back(g: TableGeneric, s: StreamState, offset: u32, rest: Seq<u8>, r: TableGeneric)
    requires
        s.at(offset as int).remaining() == g.bytes_spec() + rest,
        g.data@.len() <= u32::MAX,
    ensures
        TableGeneric::read_exact_ok(s, offset as usize, g.len_spec() as usize),
        TableGeneric::read_exact_result(s, offset as usize, g.len_spec() as usize, Ok(r))
            ==> r.data@ == g.data@,
{
    law_generic_roundtrip(&g, rest);
}

/// Reading a table, tagged `tag`, of its own length where its bytes were
/// written gives it back, if it is of the kind that the tag is read as.
proof fn lemma_table_reads_back(
    tag: FontTag,
    w: NamedTable,
    s: StreamState,
    offset: u32,
    rest: Seq<u8>,
    r: NamedTable,
)
    requires
        s.at(offset as int).remaining() == w.bytes_spec() + rest,
        kind_fits_key(tag.spec_key(), w),
    ensures
        NamedTable::read_exact_ok(tag, s, offset as usize, w.len_spec() as usize),
        NamedTable::read_exact_result(tag, s, offset as usize, w.len_spec() as usize, Ok(r))
            ==> reads_back_as(r, w),
{
    match w {
        NamedTable::Head(_) => lemma_named_head_reads_back(tag, w, s, offset, rest, r),
        NamedTable::DSIG(_) => lemma_named_dsig_reads_back(tag, w, s, offset, rest, r),
        NamedTable::C2PA(_) => lemma_named_c2pa_reads_back(tag, w, s, offset, rest, r),
        NamedTable::Generic(_) => lemma_named_generic_reads_back(tag, w, s, offset, rest, r),
    }
}

proof fn lemma_named_head_reads_back(tag: FontTag, w: NamedTable, s: StreamState, offset: u32, rest: Seq<u8>, r: NamedTable)
    requires
        w is Head,
        s.at(offset as int).remaining() == w.bytes_spec() + rest,
        kind_fits_key(tag.spec_key(), w),
    ensures
        NamedTable::read_exact_ok(tag, s, offset as usize, w.len_spec() as usize),
        NamedTable::read_exact_result(tag, s, offset as usize, w.len_spec() as usize, Ok(r))
            ==> reads_back_as(r, w),
{
    lemma_tag_kind(tag);
    let h = w->Head_0;
    if let NamedTable::Head(rh) = r {
        lemma_head_reads_back(h, s, offset, rest, rh);
    } else {
        lemma_head_reads_back(h, s, offset, rest, h);
    }
}

proof fn lemma_named_dsig_reads_back(tag: FontTag, w: NamedTable, s: StreamState, offset: u32, rest: Seq<u8>, r: NamedTable)
    requires
        w is DSIG,
        s.at(offset as int).remaining() == w.bytes_spec() + rest,
        kind_fits_key(tag.spec_key(), w),
    ensures
        NamedTable::read_exact_ok(tag, s, offset as usize, w.len_spec() as usize),
        NamedTable::read_exact_result(tag, s, offset as usize, w.len_spec() as usize, Ok(r))
            ==> reads_back_as(r, w),
{
    lemma_tag_kind(tag);
    let d = w->DSIG_0;
    if let NamedTable::DSIG(rd) = r {
        lemma_dsig_reads_back(d, s, offset, rest, rd);
    } else {
        lemma_dsig_reads_back(d, s, offset, rest, d);
    }
}

proof fn lemma_named_c2pa_reads_back(tag: FontTag, w: NamedTable, s: StreamState, offset: u32, rest: Seq<u8>, r: NamedTable)
    requires
        w is C2PA,
        s.at(offset as int).remaining() == w.bytes_spec() + rest,
        kind_fits_key(tag.spec_key(), w),
    ensures
        NamedTable::read_exact_ok(tag, s, offset as usize, w.len_spec() as usize),
        NamedTable::read_exact_result(tag, s, offset as usize, w.len_spec() as usize, Ok(r))
            ==> reads_back_as(r, w),
{
    lemma_tag_kind(tag);
    let c = w->C2PA_0;
    lemma_c2pa_written_parses(c);
    let b = c.spec_bytes();
    if let NamedTable::C2PA(rc) = r {
        lemma_c2pa_reads_back(b, c@, s, offset, rest, rc);
    } else {
        lemma_c2pa_reads_back(b, c@, s, offset, rest, c);
    }
}

proof fn lemma_named_generic_reads_back(tag: FontTag, w: NamedTable, s: StreamState, offset: u32, rest: Seq<u8>, r: NamedTable)
    requires
        w is Generic,
        s.at(offset as int).remaining() == w.bytes_spec() + rest,
        kind_fits_key(tag.spec_key(), w),
    ensures
        NamedTable::read_exact_ok(tag, s, offset as usize, w.len_spec() as usize),
        NamedTable::read_exact_result(tag, s, offset as usize, w.len_spec() as usize, Ok(r))
            ==> reads_back_as(r, w),
{
    lemma_tag_kind(tag);
    let g = w->Generic_0;
    if let NamedTable::Generic(rg) = r {
        lemma_generic_reads_back(g, s, offset, rest, rg);
    } else {
        lemma_generic_reads_back(g, s, offset, rest, g);
    }
}

/// The sixteen bytes at `16 * i` of the bytes of some entries are those of
/// the entry at `i`.
proof fn lemma_entries_bytes_at(d: Seq<SfntDirectoryEntry>, i: int)
    requires
        0 <= i < d.len(),
    ensures
        entries_bytes(d).subrange(16 * i, 16 * i + 16) == d[i].spec_bytes(),
        entries_bytes(d).len() == 16 * d.len(),
    decreases d.len(),
{
    lemma_entries_checksum_is_bytes_checksum(d);
    lemma_entries_checksum_is_bytes_checksum(d.drop_last());
    crate::sfnt::directory::lemma_entry_checksum_is_bytes_checksum(d.last());
    if i == d.len() - 1 {
        assert(entries_bytes(d).subrange(16 * i, 16 * i + 16) =~= d[i].spec_bytes());
    } else {
        lemma_entries_bytes_at(d.drop_last(), i);
        assert(entries_bytes(d).subrange(16 * i, 16 * i + 16) =~= entries_bytes(d.drop_last()).subrange(
            16 * i,
            16 * i + 16,
        ));
    }
}

/// The bytes of some entries, whatever follows them, parse as those
/// entries.
proof fn lemma_entries_parse_back(d: Seq<SfntDirectoryEntry>, rest: Seq<u8>)
    ensures
        entries_parsed_from(d, entries_bytes(d) + rest),
{
    lemma_entries_checksum_is_bytes_checksum(d);
    let b = entries_bytes(d) + rest;
    assert forall|i: int| 0 <= i < d.len() implies #[trigger] d[i].parsed_from(b.subrange(16 * i, b.len() as int)) by {
        lemma_entries_bytes_at(d, i);
        crate::sfnt::directory::lemma_entry_checksum_is_bytes_checksum(d[i]);
        let tail = b.subrange(16 * i + 16, b.len() as int);
        law_entry_roundtrip(d[i], tail);
        assert(b.subrange(16 * i, b.len() as int) =~= d[i].spec_bytes() + tail);
    }
}

/// Entries parsed from the same bytes agree in everything that reading
/// tables looks at.
pub(crate) proof fn lemma_entries_parse_unique(d: Seq<SfntDirectoryEntry>, d2: Seq<SfntDirectoryEntry>, b: Seq<u8>)
    requires
        d.len() == d2.len(),
        entries_parsed_from(d, b),
        entries_parsed_from(d2, b),
    ensures
        forall|i: int|
            0 <= i < d.len() ==> {
                &&& (#[trigger] d2[i]).tag@ == d[i].tag@
                &&& d2[i].checksum == d[i].checksum
                &&& d2[i].offset == d[i].offset
                &&& d2[i].length == d[i].length
            },
{
    assert forall|i: int| 0 <= i < d.len() implies {
        &&& (#[trigger] d2[i]).tag@ == d[i].tag@
        &&& d2[i].checksum == d[i].checksum
        &&& d2[i].offset == d[i].offset
        &&& d2[i].length == d[i].length
    } by {
        assert(d[i].parsed_from(b.subrange(16 * i, b.len() as int)));
        assert(d2[i].parsed_from(b.subrange(16 * i, b.len() as int)));
    }
}

/// Putting entries in a stable order by some keys takes each entry from
/// its own place and misses none.
proof fn lemma_reorder_entries(es: Seq<SfntDirectoryEntry>, keys: Seq<u32>)
    requires
        keys.len() == es.len(),
        es.len() <= usize::MAX + 1,
    ensures
        reorder(es, keys).len() == es.len(),
        forall|i: int|
            0 <= i < es.len() ==> 0 <= #[trigger] stable_order(keys)[i] < es.len() && reorder(es, keys)[i]
                == es[stable_order(keys)[i] as int],
        forall|i: int, j: int|
            0 <= i < j < es.len() ==> #[trigger] stable_order(keys)[i] != #[trigger] stable_order(keys)[j],
        forall|j: usize| j < es.len() ==> #[trigger] stable_order(keys).contains(j),
{
    lemma_stable_order_exists(keys);
    let idx = stable_order(keys);
    lemma_stable_order_injective(keys, idx);
}

/// Putting entries of distinct tags in a stable order keeps their tags
/// distinct.
proof fn lemma_reorder_tags(es: Seq<SfntDirectoryEntry>, keys: Seq<u32>)
    requires
        keys.len() == es.len(),
        es.len() <= usize::MAX + 1,
        tags_distinct(es),
    ensures
        tags_distinct(reorder(es, keys)),
{
    lemma_reorder_entries(es, keys);
    let idx = stable_order(keys);
    let r = reorder(es, keys);
    assert forall|a: int, b: int| 0 <= a < b < r.len() implies #[trigger] r[a].tag.spec_key()
        != #[trigger] r[b].tag.spec_key() by {
        let x = idx[a] as int;
        let y = idx[b] as int;
        assert(x != y);
        if x < y {
            assert(es[x].tag.spec_key() != es[y].tag.spec_key());
        } else {
            assert(es[y].tag.spec_key() != es[x].tag.spec_key());
        }
    }
}

/// Where an entry goes when entries are put in a stable order.
proof fn lemma_reorder_hits(es: Seq<SfntDirectoryEntry>, keys: Seq<u32>, j: int) -> (i: int)
    requires
        keys.len() == es.len(),
        es.len() <= usize::MAX + 1,
        0 <= j < es.len(),
    ensures
        0 <= i < es.len(),
        reorder(es, keys)[i] == es[j],
{
    lemma_reorder_entries(es, keys);
    let idx = stable_order(keys);
    assert(idx.contains(j as usize));
    let i = choose|i: int| 0 <= i < idx.len() && idx[i] == j as usize;
    assert(0 <= stable_order(keys)[i] < es.len());
    i
}

/// Each laid-out entry has the tag of an entry laid out, and every entry
/// whose table the font holds is laid out.
#[verifier::spinoff_prover]
proof fn lemma_layout_tags(es: Seq<SfntDirectoryEntry>, t: Map<u32, NamedTable>, start: int)
    ensures
        forall|i: int|
            #![trigger layout_entries(es, t, start)[i]]
            0 <= i < layout_entries(es, t, start).len() ==> exists|j: int|
                #![trigger es[j]]
                0 <= j < es.len() && layout_entries(es, t, start)[i].tag == es[j].tag,
        forall|j: int|
            #![trigger es[j]]
            0 <= j < es.len() && t.contains_key(es[j].tag.spec_key()) ==> exists|i: int|
                #![trigger layout_entries(es, t, start)[i]]
                0 <= i < layout_entries(es, t, start).len() && layout_entries(es, t, start)[i].tag
                    == es[j].tag,
    decreases es.len(),
{
    if es.len() > 0 {
        let ed = es.drop_last();
        lemma_layout_tags(ed, t, start);
        let prev = layout_entries(ed, t, start);
        let l = layout_entries(es, t, start);
        let e = es.last();
        if t.contains_key(e.tag.spec_key()) {
            assert(l.drop_last() =~= prev);
            assert forall|i: int| #![trigger l[i]] 0 <= i < l.len() implies exists|j: int|
                #![trigger es[j]]
                0 <= j < es.len() && l[i].tag == es[j].tag by {
                if i < prev.len() {
                    let j = choose|j: int| #![trigger ed[j]] 0 <= j < ed.len() && prev[i].tag == ed[j].tag;
                    assert(l[i] == prev[i] && es[j] == ed[j]);
                } else {
                    assert(l[i].tag == es[es.len() - 1].tag);
                }
            }
            assert forall|j: int| #![trigger es[j]] 0 <= j < es.len() && t.contains_key(es[j].tag.spec_key()) implies exists|i: int|
                #![trigger l[i]]
                0 <= i < l.len() && l[i].tag == es[j].tag by {
                if j < ed.len() {
                    assert(es[j] == ed[j]);
                    let i = choose|i: int| #![trigger prev[i]] 0 <= i < prev.len() && prev[i].tag == ed[j].tag;
                    assert(l[i] == prev[i]);
                } else {
                    assert(l[l.len() - 1].tag == es[j].tag);
                }
            }
        } else {
            assert forall|j: int| #![trigger es[j]] 0 <= j < es.len() && t.contains_key(es[j].tag.spec_key()) implies exists|i: int|
                #![trigger l[i]]
                0 <= i < l.len() && l[i].tag == es[j].tag by {
                assert(j < ed.len());
                assert(es[j] == ed[j]);
            }
            assert forall|i: int| #![trigger l[i]] 0 <= i < l.len() implies exists|j: int|
                #![trigger es[j]]
                0 <= j < es.len() && l[i].tag == es[j].tag by {
                let j = choose|j: int| #![trigger ed[j]] 0 <= j < ed.len() && prev[i].tag == ed[j].tag;
                assert(es[j] == ed[j]);
            }
        }
    }
}

/// Laying out entries of distinct tags gives entries of distinct tags.
#[verifier::spinoff_prover]
proof fn lemma_layout_distinct(es: Seq<SfntDirectoryEntry>, t: Map<u32, NamedTable>, start: int)
    requires
        tags_distinct(es),
    ensures
        tags_distinct(layout_entries(es, t, start)),
    decreases es.len(),
{
    if es.len() > 0 {
        let ed = es.drop_last();
        assert(tags_distinct(ed)) by {
            assert forall|a: int, b: int| 0 <= a < b < ed.len() implies #[trigger] ed[a].tag.spec_key()
                != #[trigger] ed[b].tag.spec_key() by {
                assert(ed[a] == es[a] && ed[b] == es[b]);
            }
        }
        lemma_layout_distinct(ed, t, start);
        lemma_layout_tags(ed, t, start);
        let prev = layout_entries(ed, t, start);
        let l = layout_entries(es, t, start);
        let e = es.last();
        if t.contains_key(e.tag.spec_key()) {
            assert(l.drop_last() =~= prev);
            assert forall|a: int, b: int| 0 <= a < b < l.len() implies #[trigger] l[a].tag.spec_key()
                != #[trigger] l[b].tag.spec_key() by {
                assert(l[a] == prev[a]);
                if b == l.len() - 1 {
                    let j = choose|j: int| #![trigger ed[j]] 0 <= j < ed.len() && prev[a].tag == ed[j].tag;
                    assert(es[j] == ed[j]);
                    assert(es[j].tag.spec_key() != es[es.len() - 1].tag.spec_key());
                } else {
                    assert(l[b] == prev[b]);
                }
            }
        }
    }
}

/// Some entry of `d` has a tag of the number `k`.
pub open spec fn names_key(d: Seq<SfntDirectoryEntry>, k: u32) -> bool {
    exists|i: int| 0 <= i < d.len() && #[trigger] d[i].tag.spec_key() == k
}

/// A font that writing gives back on reading. Its directory names each
/// table once, and names every table that the font holds but a C2PA table;
/// each table is of the kind that its tag is read as and reads back whole;
/// the bytes of each table that the directory names fill whole words; and
/// the font passes the checks of writing and fits the counts and offsets of
/// an SFNT file.
pub open spec fn roundtrip_ready(f: SfntFont) -> bool {
    let t = f.tables@;
    let d = f.directory@;
    &&& tags_distinct(d)
    &&& forall|k: u32| #![trigger t[k]] t.contains_key(k) ==> kind_fits_key(k, t[k])
    &&& forall|k: u32| #![trigger t[k]] t.contains_key(k) && k != c2pa_key() ==> names_key(d, k)
    &&& forall|k: u32|
        #![trigger t[k]]
        t.contains_key(k) && names_key(d, k) ==> t[k].bytes_spec().len() % 4 == 0
    &&& t.len() < 4096
    &&& spec_write_checks_pass(f)
    &&& layout_fits(spec_physical_order(d), t, spec_first_offset(f))
}

/// The bytes of a table, written with any checksum adjustment, are as long
/// as its length rounded up to four, or as its length for a C2PA table.
proof fn lemma_table_bytes_len(k: u32, t: NamedTable)
    requires
        kind_fits_key(k, t),
    ensures
        t.bytes_spec().len() >= t.len_spec(),
        !(t is C2PA) ==> t.bytes_spec().len() == spec_align4(t.len_spec() as int),
        t is C2PA ==> t.bytes_spec().len() == t.len_spec(),
        t is Head ==> t.bytes_spec().len() == 56 && t.len_spec() == 54,
{
    match t {
        NamedTable::Head(h) => {
            crate::utils::lemma_checksum_words(h.spec_words(h.checksumAdjustment));
        },
        NamedTable::DSIG(d) => {
            crate::sfnt::table::dsig::lemma_dsig_checksum_is_bytes_checksum(&d);
        },
        NamedTable::C2PA(c) => {
            lemma_c2pa_len(c);
        },
        NamedTable::Generic(g) => {
            let n = g.data@.len();
            assert(g.len_spec() == n);
            assert(n + pad_len(n) == ((n + 3) / 4) * 4) by (nonlinear_arith)
                requires
                    pad_len(n) == if n % 4 == 0 {
                        0
                    } else {
                        4 - n % 4
                    },
            ;
        },
    }
}

/// Setting the checksum adjustment keeps which tables there are, their
/// kinds, lengths and the lengths of their bytes.
proof fn lemma_adjusted_tables(t: Map<u32, NamedTable>, adj: u32, k: u32)
    requires
        t.contains_key(k),
        kind_fits_key(k, t[k]),
    ensures
        spec_adjusted_tables(t, adj).dom() == t.dom(),
        spec_adjusted_tables(t, adj).contains_key(k),
        kind_fits_key(k, spec_adjusted_tables(t, adj)[k]),
        spec_adjusted_tables(t, adj)[k].len_spec() == t[k].len_spec(),
        spec_adjusted_tables(t, adj)[k].bytes_spec().len() == t[k].bytes_spec().len(),
        spec_adjusted_tables(t, adj)[k] is C2PA == t[k] is C2PA,
{
    let t2 = spec_adjusted_tables(t, adj);
    if t.contains_key(head_key()) {
        if let NamedTable::Head(h) = t[head_key()] {
            assert(t2.dom() =~= t.dom());
            if k == head_key() {
                let h2 = TableHead { checksumAdjustment: adj, ..h };
                lemma_table_bytes_len(k, t[k]);
                assert(kind_fits_key(k, NamedTable::Head(h2)));
                lemma_table_bytes_len(k, NamedTable::Head(h2));
            }
        }
    }
}

/// Entries of distinct tags, one for each table, are as many as the
/// tables.
#[verifier::spinoff_prover]
proof fn lemma_count_keys(l: Seq<SfntDirectoryEntry>, t: Map<u32, NamedTable>)
    requires
        tags_distinct(l),
        forall|i: int| #![trigger l[i]] 0 <= i < l.len() ==> t.contains_key(l[i].tag.spec_key()),
        forall|k: u32| #![trigger t.dom().contains(k)] t.contains_key(k) ==> names_key(l, k),
    ensures
        l.len() == t.len(),
{
    let ks = l.map_values(|e: SfntDirectoryEntry| e.tag.spec_key());
    assert(ks.no_duplicates()) by {
        assert forall|a: int, b: int| 0 <= a < ks.len() && 0 <= b < ks.len() && a != b implies ks[a]
            != ks[b] by {
            if a < b {
                assert(l[a].tag.spec_key() != l[b].tag.spec_key());
            } else {
                assert(l[b].tag.spec_key() != l[a].tag.spec_key());
            }
        }
    }
    assert(ks.to_set() =~= t.dom()) by {
        assert forall|k: u32| ks.to_set().contains(k) implies t.dom().contains(k) by {
            let i = choose|i: int| 0 <= i < ks.len() && ks[i] == k;
            assert(t.contains_key(l[i].tag.spec_key()));
        }
        assert forall|k: u32| t.dom().contains(k) implies ks.to_set().contains(k) by {
            assert(t.contains_key(k));
            assert(names_key(l, k));
            let i = choose|i: int| 0 <= i < l.len() && #[trigger] l[i].tag.spec_key() == k;
            assert(ks[i] == k);
        }
    }
    ks.unique_seq_to_set();
}

/// The bytes of the tables of one entry are those of its table.
proof fn lemma_tables_bytes_single(e: SfntDirectoryEntry, t2: Map<u32, NamedTable>)
    requires
        t2.contains_key(e.tag.spec_key()),
    ensures
        tables_bytes(seq![e], t2) == t2[e.tag.spec_key()].bytes_spec(),
{
    let one = seq![e];
    assert(one.drop_last() =~= Seq::<SfntDirectoryEntry>::empty());
    assert(one.last() == e);
    assert(tables_bytes(one.drop_last(), t2) == Seq::<u8>::empty());
    assert(Seq::<u8>::empty() + t2[e.tag.spec_key()].bytes_spec() =~= t2[e.tag.spec_key()].bytes_spec());
}

/// The bytes of the tables of the first `j` entries are at least those of
/// the first `i + 1`, which are those of the first `i` and the table of
/// entry `i`.
proof fn lemma_tables_bytes_grow(l: Seq<SfntDirectoryEntry>, t2: Map<u32, NamedTable>, i: int, j: int)
    requires
        0 <= i < j <= l.len(),
        t2.contains_key(l[i].tag.spec_key()),
    ensures
        tables_bytes(l.take(j), t2).len() >= tables_bytes(l.take(i), t2).len() + t2[l[i].tag.spec_key()].bytes_spec().len(),
{
    assert(l.take(j) =~= l.take(i + 1) + l.subrange(i + 1, j));
    lemma_tables_bytes_concat(l.take(i + 1), l.subrange(i + 1, j), t2);
    assert(l.take(i + 1) =~= l.take(i) + seq![l[i]]);
    lemma_tables_bytes_concat(l.take(i), seq![l[i]], t2);
    lemma_tables_bytes_single(l[i], t2);
}

/// A table that the directory does not name and the font holds is a C2PA
/// table, which is laid out after the others.
#[verifier::spinoff_prover]
proof fn lemma_key_laid_out(f: SfntFont, k: u32)
    requires
        roundtrip_ready(f),
        f.tables@.contains_key(k),
        f.directory@.len() <= usize::MAX,
    ensures
        names_key(f.directory@, k) ==> names_key(layout_entries(spec_physical_order(f.directory@), f.tables@, spec_first_offset(f)), k),
        !names_key(f.directory@, k) ==> k == c2pa_key(),
{
    let d = f.directory@;
    let t = f.tables@;
    let phys = spec_physical_order(d);
    let start = spec_first_offset(f);
    let _ = t[k];
    lemma_reorder_entries(d, offset_keys(d));
    if names_key(d, k) {
        let j = choose|j: int| 0 <= j < d.len() && #[trigger] d[j].tag.spec_key() == k;
        let i = lemma_reorder_hits(d, offset_keys(d), j);
        lemma_layout_tags(phys, t, start);
        assert(phys[i] == d[j]);
        assert(t.contains_key(phys[i].tag.spec_key()));
        let laid = layout_entries(phys, t, start);
        let q = choose|q: int| #![trigger laid[q]] 0 <= q < laid.len() && laid[q].tag == phys[i].tag;
        assert(laid[q].tag.spec_key() == k);
    }
}

/// Whether the directory has the C2PA tag is whether it names its number.
proof fn lemma_has_c2pa(d: Seq<SfntDirectoryEntry>)
    ensures
        has_tag(d, crate::tag::c2pa_tag()) == names_key(d, c2pa_key()),
{
    if has_tag(d, crate::tag::c2pa_tag()) {
        let i = choose|i: int| 0 <= i < d.len() && #[trigger] d[i].tag@ == crate::tag::c2pa_tag()@;
        lemma_key_injective(d[i].tag, crate::tag::c2pa_tag());
    }
    if names_key(d, c2pa_key()) {
        let i = choose|i: int| 0 <= i < d.len() && #[trigger] d[i].tag.spec_key() == c2pa_key();
        lemma_key_injective(d[i].tag, crate::tag::c2pa_tag());
    }
}

/// The tables that the directory names are laid out where their bytes
/// start, and their bytes are as long as their lengths rounded up.
#[verifier::spinoff_prover]
proof fn lemma_laid_positions(f: SfntFont, adj: u32)
    requires
        roundtrip_ready(f),
    ensures
        ({
            let t = f.tables@;
            let t2 = spec_adjusted_tables(t, adj);
            let start = spec_first_offset(f);
            let phys = spec_physical_order(f.directory@);
            let laid = layout_entries(phys, t, start);
            &&& tables_bytes(laid, t2).len() == layout_end(phys, t, start) - start
            &&& layout_end(phys, t, start) <= u32::MAX
            &&& forall|i: int|
                #![trigger laid[i]]
                0 <= i < laid.len() ==> laid[i].offset == start + tables_bytes(laid.take(i), t2).len()
            &&& forall|i: int|
                #![trigger laid[i]]
                0 <= i < laid.len() ==> t.contains_key(laid[i].tag.spec_key()) && laid[i].length
                    == t[laid[i].tag.spec_key()].len_spec()
        }),
{
    let t = f.tables@;
    let d = f.directory@;
    let t2 = spec_adjusted_tables(t, adj);
    let start = spec_first_offset(f);
    let phys = spec_physical_order(d);
    crate::sfnt::directory::lemma_directory_len(&f.directory);
    lemma_reorder_entries(d, offset_keys(d));
    assert forall|i: int|
        #![trigger phys[i]]
        0 <= i < phys.len() && t.contains_key(phys[i].tag.spec_key()) implies t2.contains_key(phys[i].tag.spec_key())
            && t2[phys[i].tag.spec_key()].bytes_spec().len() == spec_align4(
            t[phys[i].tag.spec_key()].len_spec() as int,
        ) by {
        let k = phys[i].tag.spec_key();
        let _ = t[k];
        lemma_adjusted_tables(t, adj, k);
        lemma_table_bytes_len(k, t[k]);
        let j = stable_order(offset_keys(d))[i] as int;
        assert(phys[i] == d[j]);
        assert(names_key(d, k));
        if t[k] is C2PA {
            let n = t[k].len_spec() as int;
            assert(n % 4 == 0);
            assert(((n + 3) / 4) * 4 == n) by (nonlinear_arith)
                requires
                    n % 4 == 0,
                    n >= 0,
            ;
        }
    }
    lemma_layout_positions(phys, t, t2, start);
    assert(phys.take(phys.len() as int) =~= phys);
}

/// Every table of the font is laid out.
#[verifier::spinoff_prover]
proof fn lemma_laid_out_covers(f: SfntFont, k: u32)
    requires
        roundtrip_ready(f),
        f.tables@.contains_key(k),
    ensures
        names_key(spec_laid_out(f), k),
{
    let t = f.tables@;
    let d = f.directory@;
    let start = spec_first_offset(f);
    let phys = spec_physical_order(d);
    let laid = layout_entries(phys, t, start);
    let l = spec_laid_out(f);
    crate::sfnt::directory::lemma_directory_len(&f.directory);
    lemma_has_c2pa(d);
    lemma_key_laid_out(f, k);
    if names_key(d, k) {
        let q = choose|q: int| 0 <= q < laid.len() && #[trigger] laid[q].tag.spec_key() == k;
        if l != laid {
            assert(l[q] == laid[q]);
        }
    } else {
        assert(l.last().tag.spec_key() == c2pa_key());
        assert(l[l.len() - 1].tag.spec_key() == k);
    }
}

/// The C2PA entry laid out last has a tag that no other laid-out entry
/// has.
proof fn lemma_laid_out_c2pa_apart(f: SfntFont, a: int)
    requires
        tags_distinct(f.directory@),
        !has_tag(f.directory@, crate::tag::c2pa_tag()),
        0 <= a < layout_entries(spec_physical_order(f.directory@), f.tables@, spec_first_offset(f)).len(),
    ensures
        layout_entries(spec_physical_order(f.directory@), f.tables@, spec_first_offset(f))[a].tag.spec_key()
            != c2pa_key(),
{
    let t = f.tables@;
    let d = f.directory@;
    let start = spec_first_offset(f);
    let phys = spec_physical_order(d);
    let laid = layout_entries(phys, t, start);
    crate::sfnt::directory::lemma_directory_len(&f.directory);
    lemma_reorder_entries(d, offset_keys(d));
    lemma_layout_tags(phys, t, start);
    lemma_has_c2pa(d);
    let j = choose|j: int| #![trigger phys[j]] 0 <= j < phys.len() && laid[a].tag == phys[j].tag;
    let m = stable_order(offset_keys(d))[j] as int;
    assert(phys[j] == d[m]);
    assert(!names_key(d, c2pa_key()));
    assert(d[m].tag.spec_key() != c2pa_key());
}

/// The laid-out entries have distinct tags.
#[verifier::spinoff_prover]
pub(crate) proof fn lemma_laid_out_distinct(f: SfntFont)
    requires
        tags_distinct(f.directory@),
    ensures
        tags_distinct(spec_laid_out(f)),
{
    let t = f.tables@;
    let d = f.directory@;
    let start = spec_first_offset(f);
    let phys = spec_physical_order(d);
    let laid = layout_entries(phys, t, start);
    let l = spec_laid_out(f);
    crate::sfnt::directory::lemma_directory_len(&f.directory);
    lemma_reorder_tags(d, offset_keys(d));
    lemma_layout_distinct(phys, t, start);
    if l != laid {
        assert forall|a: int, b: int| 0 <= a < b < l.len() implies #[trigger] l[a].tag.spec_key()
            != #[trigger] l[b].tag.spec_key() by {
            assert(l[a] == laid[a]);
            if b == l.len() - 1 {
                lemma_laid_out_c2pa_apart(f, a);
                assert(l[b].tag.spec_key() == c2pa_key());
            } else {
                assert(l[b] == laid[b]);
            }
        }
    }
}

/// Each laid-out entry names a table of the font, records its length, and
/// is where the bytes of the tables before it end.
#[verifier::spinoff_prover]
proof fn lemma_laid_out_entry(f: SfntFont, adj: u32, i: int)
    requires
        roundtrip_ready(f),
        0 <= i < spec_laid_out(f).len(),
    ensures
        ({
            let t = f.tables@;
            let l = spec_laid_out(f);
            let t2 = spec_adjusted_tables(t, adj);
            &&& t.contains_key(l[i].tag.spec_key())
            &&& l[i].length == t[l[i].tag.spec_key()].len_spec()
            &&& l[i].offset == spec_first_offset(f) + tables_bytes(l.take(i), t2).len()
            &&& t2.contains_key(l[i].tag.spec_key())
        }),
{
    let t = f.tables@;
    let t2 = spec_adjusted_tables(t, adj);
    let start = spec_first_offset(f);
    let phys = spec_physical_order(f.directory@);
    let laid = layout_entries(phys, t, start);
    let l = spec_laid_out(f);
    lemma_laid_positions(f, adj);
    if i < laid.len() {
        assert(l[i] == laid[i]);
        assert(l.take(i) =~= laid.take(i));
        assert(laid[i] == laid[i]);
    } else {
        assert(l.take(i) =~= laid);
    }
    let k = l[i].tag.spec_key();
    let _ = t[k];
    lemma_adjusted_tables(t, adj, k);
    lemma_table_bytes_len(k, t[k]);
}

/// What laying out the tables of a font that writing gives back on reading
/// makes: an entry for each table, of distinct tags, each where the bytes of
/// the tables before it end.
#[verifier::spinoff_prover]
#[verifier::rlimit(40)]
proof fn lemma_laid_out_facts(f: SfntFont, adj: u32)
    requires
        roundtrip_ready(f),
    ensures
        ({
            let t = f.tables@;
            let l = spec_laid_out(f);
            let t2 = spec_adjusted_tables(t, adj);
            let start = spec_first_offset(f);
            &&& l.len() == t.len()
            &&& tags_distinct(l)
            &&& forall|i: int|
                #![trigger l[i]]
                0 <= i < l.len() ==> t.contains_key(l[i].tag.spec_key()) && l[i].length
                    == t[l[i].tag.spec_key()].len_spec() && l[i].offset == start + tables_bytes(
                    l.take(i),
                    t2,
                ).len()
        }),
{
    let t = f.tables@;
    let t2 = spec_adjusted_tables(t, adj);
    let start = spec_first_offset(f);
    let l = spec_laid_out(f);
    lemma_laid_out_distinct(f);
    assert forall|i: int| #![trigger l[i]] 0 <= i < l.len() implies t2.contains_key(l[i].tag.spec_key())
        && l[i].offset == start + tables_bytes(l.take(i), t2).len()
        && t.contains_key(l[i].tag.spec_key()) && l[i].length == t[l[i].tag.spec_key()].len_spec() by {
        lemma_laid_out_entry(f, adj, i);
    }
    lemma_laid_out_count(f);
}

/// As many entries are laid out as the font has tables.
#[verifier::spinoff_prover]
proof fn lemma_laid_out_count(f: SfntFont)
    requires
        roundtrip_ready(f),
    ensures
        spec_laid_out(f).len() == f.tables@.len(),
{
    let t = f.tables@;
    let l = spec_laid_out(f);
    lemma_laid_out_distinct(f);
    assert forall|i: int| #![trigger l[i]] 0 <= i < l.len() implies t.contains_key(l[i].tag.spec_key()) by {
        lemma_laid_out_entry(f, 0, i);
    }
    assert forall|k: u32| #![trigger t.dom().contains(k)] t.contains_key(k) implies names_key(l, k) by {
        lemma_laid_out_covers(f, k);
    }
    lemma_count_keys(l, t);
}

/// The adjustment that writing a font gives its 'head' table.
pub open spec fn written_adjustment(f: SfntFont) -> u32 {
    let w = spec_written(f);
    spec_adjustment(spec_font_checksum(w.0, w.1))
}

/// How the bytes that writing a font writes are laid out: the header, the
/// directory of the laid-out entries in the order of their tags, then the
/// tables in the order in which they were laid out.
#[verifier::spinoff_prover]
proof fn lemma_written_layout(f: SfntFont)
    requires
        roundtrip_ready(f),
    ensures
        ({
            let w = spec_written(f);
            let l = spec_laid_out(f);
            let t = f.tables@;
            &&& w.2 == spec_adjusted_tables(t, written_adjustment(f))
            &&& tables_bytes(spec_physical_order(w.1), w.2) == tables_bytes(l, w.2)
            &&& w.1.len() == t.len()
            &&& w.0.numTables == t.len()
            &&& tags_distinct(w.1)
            &&& w.0.spec_bytes().len() == 12
            &&& entries_bytes(w.1).len() == 16 * w.1.len()
            &&& spec_written_bytes(f) == w.0.spec_bytes() + entries_bytes(w.1) + tables_bytes(l, w.2)
            &&& spec_first_offset(f) == 12 + 16 * t.len()
            &&& forall|i: int|
                #![trigger w.1[i]]
                0 <= i < w.1.len() ==> 0 <= stable_order(tag_keys(l))[i] < l.len() && w.1[i]
                    == l[stable_order(tag_keys(l))[i] as int]
        }),
{
    let w = spec_written(f);
    let l = spec_laid_out(f);
    let t = f.tables@;
    lemma_laid_out_facts(f, written_adjustment(f));
    lemma_reorder_entries(l, tag_keys(l));
    lemma_reorder_tags(l, tag_keys(l));
    lemma_written_order_same_bytes(f);
    lemma_header_checksum_is_bytes_checksum(w.0);
    lemma_entries_checksum_is_bytes_checksum(w.1);
}

/// The tables of the written directory, in the order of their offsets,
/// have the bytes of the tables in the order in which they were laid out.
#[verifier::spinoff_prover]
proof fn lemma_written_order_same_bytes(f: SfntFont)
    requires
        roundtrip_ready(f),
    ensures
        tables_bytes(spec_physical_order(spec_written(f).1), spec_written(f).2) == tables_bytes(
            spec_laid_out(f),
            spec_written(f).2,
        ),
{
    let w = spec_written(f);
    let l = spec_laid_out(f);
    let t = f.tables@;
    let t2 = w.2;
    let adj = written_adjustment(f);
    lemma_laid_out_facts(f, adj);
    assert(l.no_duplicates()) by {
        assert forall|i: int, j: int| 0 <= i < l.len() && 0 <= j < l.len() && i != j implies l[i] != l[j] by {
            if i < j {
                assert(l[i].tag.spec_key() != l[j].tag.spec_key());
            } else {
                assert(l[j].tag.spec_key() != l[i].tag.spec_key());
            }
        }
    }
    lemma_reorder_same(l, tag_keys(l));
    let d = w.1;
    assert(d == reorder(l, tag_keys(l)));
    lemma_reorder_entries(l, tag_keys(l));
    lemma_reorder_same(d, offset_keys(d));
    lemma_physical_sorted(d);
    let x = spec_physical_order(d);
    assert forall|a: SfntDirectoryEntry| #![trigger x.contains(a)] #![trigger l.contains(a)] x.contains(a) <==> l.contains(a) by {
        assert(x.contains(a) <==> d.contains(a));
        assert(d.contains(a) <==> l.contains(a));
    }
    lemma_sorted_same_bytes(l, x, t2, spec_first_offset(f));
}

/// Where writing a font puts a laid-out entry's table, the bytes of that
/// table are, followed by the rest of the written bytes.
#[verifier::spinoff_prover]
proof fn lemma_table_at(f: SfntFont, i: int)
    requires
        roundtrip_ready(f),
        0 <= i < spec_laid_out(f).len(),
    ensures
        ({
            let w = spec_written(f);
            let l = spec_laid_out(f);
            let b = spec_written_bytes(f);
            let k = l[i].tag.spec_key();
            let o = l[i].offset as int;
            &&& w.2.contains_key(k)
            &&& f.tables@.contains_key(k)
            &&& l[i].length == w.2[k].len_spec()
            &&& kind_fits_key(k, w.2[k])
            &&& o + w.2[k].bytes_spec().len() <= b.len()
            &&& b.subrange(o, b.len() as int) == w.2[k].bytes_spec() + b.subrange(
                o + w.2[k].bytes_spec().len(),
                b.len() as int,
            )
        }),
{
    let w = spec_written(f);
    let l = spec_laid_out(f);
    let t = f.tables@;
    let t2 = w.2;
    let b = spec_written_bytes(f);
    let adj = written_adjustment(f);
    lemma_written_layout(f);
    lemma_laid_out_entry(f, adj, i);
    let k = l[i].tag.spec_key();
    let _ = t[k];
    lemma_adjusted_tables(t, adj, k);
    let bytes = t2[k].bytes_spec();
    assert(l =~= l.take(i) + l.subrange(i, l.len() as int));
    lemma_tables_bytes_concat(l.take(i), l.subrange(i, l.len() as int), t2);
    assert(l.subrange(i, l.len() as int) =~= seq![l[i]] + l.subrange(i + 1, l.len() as int));
    lemma_tables_bytes_concat(seq![l[i]], l.subrange(i + 1, l.len() as int), t2);
    lemma_tables_bytes_single(l[i], t2);
    let pre = w.0.spec_bytes() + entries_bytes(w.1) + tables_bytes(l.take(i), t2);
    let post = tables_bytes(l.subrange(i + 1, l.len() as int), t2);
    assert(b =~= pre + bytes + post);
    assert(pre.len() == l[i].offset);
    assert(b.subrange(l[i].offset as int, b.len() as int) =~= bytes + post);
    assert(b.subrange(l[i].offset + bytes.len(), b.len() as int) =~= post);
}

/// The table that an entry of the written directory describes reads back,
/// under any tag with the entry's bytes, as the table that was written.
#[verifier::spinoff_prover]
proof fn lemma_entry_reads_back(f: SfntFont, s: StreamState, i: int, tag: FontTag, r: NamedTable)
    requires
        roundtrip_ready(f),
        s.data == spec_written_bytes(f),
        s.pos == 0,
        0 <= i < spec_written(f).1.len(),
        tag@ == spec_written(f).1[i].tag@,
    ensures
        ({
            let w = spec_written(f);
            let e = w.1[i];
            &&& w.2.contains_key(e.tag.spec_key())
            &&& NamedTable::read_exact_ok(tag, s, e.offset as usize, e.length as usize)
            &&& NamedTable::read_exact_result(tag, s, e.offset as usize, e.length as usize, Ok(r))
                ==> reads_back_as(r, w.2[e.tag.spec_key()])
        }),
{
    let w = spec_written(f);
    let l = spec_laid_out(f);
    let b = spec_written_bytes(f);
    lemma_written_layout(f);
    let j = stable_order(tag_keys(l))[i] as int;
    assert(w.1[i] == l[j]);
    lemma_table_at(f, j);
    let k = l[j].tag.spec_key();
    let t = f.tables@;
    let _ = t[k];
    lemma_table_bytes_len(k, t[k]);
    lemma_adjusted_tables(t, written_adjustment(f), k);
    let o = l[j].offset as int;
    let bytes = w.2[k].bytes_spec();
    let rest = b.subrange(o + bytes.len(), b.len() as int);
    assert(s.at(o).remaining() == bytes + rest);
    assert(tag.spec_key() == k);
    lemma_table_reads_back(tag, w.2[k], s, l[j].offset, rest, r);
}

/// The bytes that writing a font writes start with its new header, hold
/// its whole directory, and parse as that directory.
#[verifier::spinoff_prover]
proof fn lemma_written_parses(f: SfntFont, s: StreamState)
    requires
        roundtrip_ready(f),
        s.data == spec_written_bytes(f),
        s.pos == 0,
    ensures
        ({
            let w = spec_written(f);
            let rem = s.remaining();
            &&& spec_parse_header(rem) == Ok::<SfntHeader, FontIoError>(w.0)
            &&& rem.len() >= 12 + 16 * w.0.numTables
            &&& w.1.len() == w.0.numTables
            &&& entries_parsed_from(w.1, rem.subrange(12, rem.len() as int))
        }),
{
    let w = spec_written(f);
    let l = spec_laid_out(f);
    lemma_written_layout(f);
    let hb = w.0.spec_bytes();
    let db = entries_bytes(w.1);
    let tb = tables_bytes(l, w.2);
    let b = spec_written_bytes(f);
    assert(b =~= hb + (db + tb));
    assert(s.remaining() =~= b);
    law_header_roundtrip(w.0, db + tb);
    assert(b.subrange(12, b.len() as int) =~= db + tb);
    lemma_entries_parse_back(w.1, tb);
}

/// Every table that a directory parsed from the written bytes describes
/// can be read.
#[verifier::spinoff_prover]
proof fn lemma_written_readable(f: SfntFont, s: StreamState, d: Seq<SfntDirectoryEntry>)
    requires
        roundtrip_ready(f),
        s.data == spec_written_bytes(f),
        s.pos == 0,
        d.len() == spec_written(f).0.numTables,
        entries_parsed_from(d, s.remaining().subrange(12, s.remaining().len() as int)),
    ensures
        all_tables_readable(d, s),
        forall|i: int|
            0 <= i < d.len() ==> {
                &&& (#[trigger] d[i]).tag@ == spec_written(f).1[i].tag@
                &&& d[i].checksum == spec_written(f).1[i].checksum
                &&& d[i].offset == spec_written(f).1[i].offset
                &&& d[i].length == spec_written(f).1[i].length
            },
{
    let w = spec_written(f);
    lemma_written_parses(f, s);
    let rem = s.remaining();
    lemma_entries_parse_unique(w.1, d, rem.subrange(12, rem.len() as int));
    assert forall|i: int| 0 <= i < d.len() implies NamedTable::read_exact_ok(
        #[trigger] d[i].tag,
        s,
        d[i].offset as usize,
        d[i].length as usize,
    ) by {
        lemma_entry_reads_back(f, s, i, d[i].tag, vstd::pervasive::arbitrary::<NamedTable>());
    }
}

/// Reading the written bytes succeeds.
#[verifier::spinoff_prover]
proof fn lemma_read_is_ok(f: SfntFont, s: StreamState, r: Result<SfntFont, FontIoError>)
    requires
        roundtrip_ready(f),
        s.data == spec_written_bytes(f),
        s.pos == 0,
        spec_font_read(s, r),
    ensures
        ({
            let w = spec_written(f);
            let rem = s.remaining();
            r matches Ok(g) && {
                &&& g.header == w.0
                &&& g.directory@.len() == w.0.numTables
                &&& entries_parsed_from(g.directory@, rem.subrange(12, rem.len() as int))
                &&& tables_read_from(g.tables@, g.directory@, s)
            }
        }),
{
    let w = spec_written(f);
    lemma_written_parses(f, s);
    assert(!some_table_unreadable(w.0, s)) by {
        if some_table_unreadable(w.0, s) {
            let rem = s.remaining();
            let d = choose|d: Seq<SfntDirectoryEntry>|
                {
                    &&& d.len() == w.0.numTables
                    &&& #[trigger] entries_parsed_from(d, rem.subrange(12, rem.len() as int))
                    &&& !all_tables_readable(d, s)
                };
            lemma_written_readable(f, s, d);
        }
    }
}

/// A table that reading the written bytes gives is one of the font's, and
/// reads back as the table that was written.
#[verifier::spinoff_prover]
proof fn lemma_read_table(f: SfntFont, s: StreamState, g: SfntFont, k: u32)
    requires
        roundtrip_ready(f),
        s.data == spec_written_bytes(f),
        s.pos == 0,
        g.directory@.len() == spec_written(f).0.numTables,
        entries_parsed_from(g.directory@, s.remaining().subrange(12, s.remaining().len() as int)),
        tables_read_from(g.tables@, g.directory@, s),
        g.tables@.contains_key(k),
    ensures
        f.tables@.contains_key(k),
        reads_back_as(g.tables@[k], spec_written(f).2[k]),
{
    let w = spec_written(f);
    let t = f.tables@;
    let l = spec_laid_out(f);
    let gd = g.directory@;
    let gt = g.tables@;
    lemma_written_layout(f);
    lemma_written_readable(f, s, gd);
    let i = choose|i: int| 0 <= i < gd.len() && #[trigger] gd[i].tag.spec_key() == k;
    assert(gd[i].tag@ == w.1[i].tag@);
    lemma_entry_reads_back(f, s, i, gd[i].tag, gt[k]);
    assert(w.1[i].tag.spec_key() == k);
    let j = stable_order(tag_keys(l))[i] as int;
    assert(w.1[i] == l[j]);
    lemma_laid_out_entry(f, written_adjustment(f), j);
    assert(last_with_tag(gd, i)) by {
        assert forall|q: int| i < q < gd.len() implies #[trigger] gd[q].tag.spec_key() != gd[i].tag.spec_key() by {
            assert(gd[q].tag@ == w.1[q].tag@);
            assert(w.1[i].tag.spec_key() != w.1[q].tag.spec_key());
        }
    }
}

/// Reading the written bytes gives a table under each tag of the font.
#[verifier::spinoff_prover]
proof fn lemma_read_covers(f: SfntFont, s: StreamState, g: SfntFont, k: u32)
    requires
        roundtrip_ready(f),
        s.data == spec_written_bytes(f),
        s.pos == 0,
        g.directory@.len() == spec_written(f).0.numTables,
        entries_parsed_from(g.directory@, s.remaining().subrange(12, s.remaining().len() as int)),
        tables_read_from(g.tables@, g.directory@, s),
        f.tables@.contains_key(k),
    ensures
        g.tables@.contains_key(k),
{
    let w = spec_written(f);
    let l = spec_laid_out(f);
    let gd = g.directory@;
    lemma_laid_out_count(f);
    lemma_laid_out_covers(f, k);
    let j = choose|j: int| 0 <= j < l.len() && #[trigger] l[j].tag.spec_key() == k;
    let i = lemma_reorder_hits(l, tag_keys(l), j);
    assert(w.1 == spec_tag_order(l));
    assert(w.1[i] == l[j]);
    lemma_reorder_entries(l, tag_keys(l));
    lemma_written_readable(f, s, gd);
    assert(gd[i].tag@ == w.1[i].tag@);
    assert(gd[i].tag.spec_key() == k);
}

/// Reading the bytes that writing a font writes gives a font back: its
/// header is the one that writing made, its directory the entries that
/// writing made, and it holds a table under each tag of the written font,
/// the table that was written, read back whole but for the signatures of a
/// DSIG table, which writing leaves out. This holds of a font whose
/// directory names each table once and every table but a C2PA table, whose
/// tables are of the kinds that their tags are read as and fill whole words
/// where the directory names them, and which writing accepts.
#[verifier::spinoff_prover]
pub proof fn law_read_after_write(f: SfntFont, s: StreamState, r: Result<SfntFont, FontIoError>)
    requires
        roundtrip_ready(f),
        s.data == spec_written_bytes(f),
        s.pos == 0,
        spec_font_read(s, r),
    ensures
        ({
            let w = spec_written(f);
            r matches Ok(g) && {
                &&& g.header == w.0
                &&& g.directory@.len() == w.1.len()
                &&& forall|i: int|
                    0 <= i < w.1.len() ==> {
                        &&& (#[trigger] g.directory@[i]).tag@ == w.1[i].tag@
                        &&& g.directory@[i].checksum == w.1[i].checksum
                        &&& g.directory@[i].offset == w.1[i].offset
                        &&& g.directory@[i].length == w.1[i].length
                    }
                &&& g.tables@.dom() == f.tables@.dom()
                &&& forall|k: u32|
                    #![trigger g.tables@[k]]
                    g.tables@.contains_key(k) ==> reads_back_as(g.tables@[k], w.2[k])
            }
        }),
{
    let t = f.tables@;
    lemma_written_layout(f);
    lemma_read_is_ok(f, s, r);
    let g = r->Ok_0;
    lemma_written_readable(f, s, g.directory@);
    assert forall|k: u32| #![trigger g.tables@[k]] g.tables@.contains_key(k) implies reads_back_as(
        g.tables@[k],
        spec_written(f).2[k],
    ) by {
        lemma_read_table(f, s, g, k);
    }
    assert forall|k: u32| g.tables@.dom().contains(k) == t.dom().contains(k) by {
        if g.tables@.contains_key(k) {
            lemma_read_table(f, s, g, k);
        }
        if t.contains_key(k) {
            lemma_read_covers(f, s, g, k);
        }
    }
    assert(g.tables@.dom() =~= t.dom());
}

/// The tables of entries whose tables have no bytes have no bytes.
proof fn lemma_tables_bytes_none(x: Seq<SfntDirectoryEntry>, t2: Map<u32, NamedTable>)
    requires
        forall|i: int|
            #![trigger x[i]]
            0 <= i < x.len() && t2.contains_key(x[i].tag.spec_key()) ==> t2[x[i].tag.spec_key()].bytes_spec().len()
                == 0,
    ensures
        tables_bytes(x, t2) == Seq::<u8>::empty(),
    decreases x.len(),
{
    if x.len() > 0 {
        let xd = x.drop_last();
        assert forall|i: int|
            #![trigger xd[i]]
            0 <= i < xd.len() && t2.contains_key(xd[i].tag.spec_key()) implies t2[xd[i].tag.spec_key()].bytes_spec().len()
                == 0 by {
            assert(xd[i] == x[i]);
        }
        lemma_tables_bytes_none(xd, t2);
        assert(x.last() == x[x.len() - 1]);
        let k = x.last().tag.spec_key();
        if t2.contains_key(k) {
            assert(t2[k].bytes_spec() =~= Seq::<u8>::empty());
        }
        assert(tables_bytes(x, t2) =~= Seq::<u8>::empty());
    }
}

/// Taking the last entry out of a sequence and the same entry out of a
/// sequence that holds the same entries leaves two that hold the same
/// entries.
#[verifier::spinoff_prover]
proof fn lemma_same_entries_remove(l: Seq<SfntDirectoryEntry>, x: Seq<SfntDirectoryEntry>, k: int)
    requires
        l.len() > 0,
        l.no_duplicates(),
        x.no_duplicates(),
        forall|a: SfntDirectoryEntry| #![trigger x.contains(a)] #![trigger l.contains(a)] x.contains(a) <==> l.contains(a),
        0 <= k < x.len(),
        x[k] == l.last(),
    ensures
        l.drop_last().no_duplicates(),
        x.remove(k).no_duplicates(),
        forall|a: SfntDirectoryEntry|
            #![trigger x.remove(k).contains(a)]
            #![trigger l.drop_last().contains(a)]
            x.remove(k).contains(a) <==> l.drop_last().contains(a),
{
    let n = l.len();
    let e = l.last();
    let ld = l.drop_last();
    let xd = x.remove(k);
    assert forall|i: int, j: int| 0 <= i < ld.len() && 0 <= j < ld.len() && i != j implies ld[i] != ld[j] by {
        assert(ld[i] == l[i] && ld[j] == l[j]);
    }
    assert forall|i: int, j: int| 0 <= i < xd.len() && 0 <= j < xd.len() && i != j implies xd[i] != xd[j] by {
        let i2 = if i < k { i } else { i + 1 };
        let j2 = if j < k { j } else { j + 1 };
        assert(xd[i] == x[i2] && xd[j] == x[j2]);
    }
    assert forall|a: SfntDirectoryEntry| #![trigger xd.contains(a)] #![trigger ld.contains(a)] xd.contains(a) <==> ld.contains(a) by {
        if xd.contains(a) {
            let q = choose|q: int| 0 <= q < xd.len() && xd[q] == a;
            let q2 = if q < k { q } else { q + 1 };
            assert(x[q2] == a);
            assert(x.contains(a));
            assert(q2 != k);
            let m = choose|m: int| 0 <= m < l.len() && l[m] == a;
            if m == n - 1 {
                assert(x[k] == x[q2]);
            }
            assert(ld[m] == a);
        }
        if ld.contains(a) {
            let m = choose|m: int| 0 <= m < ld.len() && ld[m] == a;
            assert(l[m] == a);
            assert(l.contains(a));
            assert(l[m] != l[n - 1]);
            let q = choose|q: int| 0 <= q < x.len() && x[q] == a;
            assert(q != k);
            if q < k {
                assert(xd[q] == a);
            } else {
                assert(xd[q - 1] == a);
            }
        }
    }
}

/// An entry that comes after the last of some entries laid out one after
/// another, in an order by offset of the same entries, has a table with no
/// bytes.
#[verifier::spinoff_prover]
proof fn lemma_after_last_one(
    l: Seq<SfntDirectoryEntry>,
    x: Seq<SfntDirectoryEntry>,
    t2: Map<u32, NamedTable>,
    start: int,
    k: int,
    q: int,
)
    requires
        l.len() > 0,
        x.no_duplicates(),
        forall|a: SfntDirectoryEntry| #![trigger x.contains(a)] #![trigger l.contains(a)] x.contains(a) <==> l.contains(a),
        forall|i: int, j: int| 0 <= i < j < x.len() ==> #[trigger] x[i].offset <= #[trigger] x[j].offset,
        forall|i: int|
            #![trigger l[i]]
            0 <= i < l.len() ==> t2.contains_key(l[i].tag.spec_key()) && l[i].offset == start + tables_bytes(
                l.take(i),
                t2,
            ).len(),
        0 <= k < q < x.len(),
        x[k] == l.last(),
        t2.contains_key(x[q].tag.spec_key()),
    ensures
        t2[x[q].tag.spec_key()].bytes_spec().len() == 0,
{
    let n = l.len();
    let y = x[q];
    assert(x.contains(y));
    assert(y != x[k]);
    let m = choose|m: int| 0 <= m < l.len() && l[m] == y;
    assert(l[n - 1] == x[k]);
    assert(m < n - 1);
    lemma_tables_bytes_grow(l, t2, m, n - 1);
    assert(x[k].offset <= x[q].offset);
}

/// After the last of some entries laid out one after another, in an order
/// by offset of the same entries, come only entries whose tables have no
/// bytes.
#[verifier::spinoff_prover]
proof fn lemma_after_last_no_bytes(
    l: Seq<SfntDirectoryEntry>,
    x: Seq<SfntDirectoryEntry>,
    t2: Map<u32, NamedTable>,
    start: int,
    k: int,
)
    requires
        l.len() > 0,
        x.no_duplicates(),
        forall|a: SfntDirectoryEntry| #![trigger x.contains(a)] #![trigger l.contains(a)] x.contains(a) <==> l.contains(a),
        forall|i: int, j: int| 0 <= i < j < x.len() ==> #[trigger] x[i].offset <= #[trigger] x[j].offset,
        forall|i: int|
            #![trigger l[i]]
            0 <= i < l.len() ==> t2.contains_key(l[i].tag.spec_key()) && l[i].offset == start + tables_bytes(
                l.take(i),
                t2,
            ).len(),
        0 <= k < x.len(),
        x[k] == l.last(),
    ensures
        tables_bytes(x.subrange(k + 1, x.len() as int), t2) == Seq::<u8>::empty(),
{
    let tail = x.subrange(k + 1, x.len() as int);
    assert forall|i: int|
        #![trigger tail[i]]
        0 <= i < tail.len() && t2.contains_key(tail[i].tag.spec_key()) implies t2[tail[i].tag.spec_key()].bytes_spec().len()
            == 0 by {
        assert(tail[i] == x[k + 1 + i]);
        lemma_after_last_one(l, x, t2, start, k, k + 1 + i);
    }
    lemma_tables_bytes_none(tail, t2);
}

/// The entries in any order by offset, that hold the same entries as
/// entries laid out one after another, have the same bytes of tables: the
/// entries that the order can move past one another have no bytes.
#[verifier::spinoff_prover]
proof fn lemma_sorted_same_bytes(
    l: Seq<SfntDirectoryEntry>,
    x: Seq<SfntDirectoryEntry>,
    t2: Map<u32, NamedTable>,
    start: int,
)
    requires
        l.no_duplicates(),
        x.no_duplicates(),
        forall|a: SfntDirectoryEntry| #![trigger x.contains(a)] #![trigger l.contains(a)] x.contains(a) <==> l.contains(a),
        forall|i: int, j: int| 0 <= i < j < x.len() ==> #[trigger] x[i].offset <= #[trigger] x[j].offset,
        forall|i: int|
            #![trigger l[i]]
            0 <= i < l.len() ==> t2.contains_key(l[i].tag.spec_key()) && l[i].offset == start + tables_bytes(
                l.take(i),
                t2,
            ).len(),
    ensures
        tables_bytes(x, t2) == tables_bytes(l, t2),
    decreases l.len(),
{
    if l.len() == 0 {
        if x.len() > 0 {
            assert(x.contains(x[0]));
        }
        assert(x =~= l);
    } else {
        let n = l.len();
        let e = l.last();
        assert(l.contains(e)) by {
            assert(l[n - 1] == e);
        }
        assert(x.contains(e));
        let k = choose|k: int| 0 <= k < x.len() && x[k] == e;
        let ld = l.drop_last();
        let xd = x.remove(k);
        lemma_same_entries_remove(l, x, k);
        assert forall|i: int, j: int| 0 <= i < j < xd.len() implies #[trigger] xd[i].offset <= #[trigger] xd[j].offset by {
            let i2 = if i < k { i } else { i + 1 };
            let j2 = if j < k { j } else { j + 1 };
            assert(xd[i] == x[i2] && xd[j] == x[j2]);
        }
        assert forall|i: int|
            #![trigger ld[i]]
            0 <= i < ld.len() implies t2.contains_key(ld[i].tag.spec_key()) && ld[i].offset == start
                + tables_bytes(ld.take(i), t2).len() by {
            assert(ld[i] == l[i]);
            assert(ld.take(i) =~= l.take(i));
        }
        lemma_sorted_same_bytes(ld, xd, t2, start);
        lemma_after_last_no_bytes(l, x, t2, start, k);
        let tail = x.subrange(k + 1, x.len() as int);
        let head = x.take(k);
        assert(x =~= head + seq![e] + tail);
        assert(xd =~= head + tail);
        lemma_tables_bytes_concat(head + seq![e], tail, t2);
        lemma_tables_bytes_concat(head, seq![e], t2);
        lemma_tables_bytes_concat(head, tail, t2);
        assert(t2.contains_key(e.tag.spec_key())) by {
            assert(l[n - 1] == e);
        }
        lemma_tables_bytes_single(e, t2);
        assert(l =~= ld.push(e));
        assert(tables_bytes(l, t2) == tables_bytes(ld, t2) + t2[e.tag.spec_key()].bytes_spec());
        assert(tables_bytes(x, t2) =~= tables_bytes(xd, t2) + t2[e.tag.spec_key()].bytes_spec());
    }
}

/// Putting entries without repeats in a stable order keeps them without
/// repeats and holds the same entries.
#[verifier::spinoff_prover]
proof fn lemma_reorder_same(es: Seq<SfntDirectoryEntry>, keys: Seq<u32>)
    requires
        keys.len() == es.len(),
        es.len() <= usize::MAX + 1,
        es.no_duplicates(),
    ensures
        reorder(es, keys).no_duplicates(),
        forall|a: SfntDirectoryEntry|
            #![trigger reorder(es, keys).contains(a)]
            #![trigger es.contains(a)]
            reorder(es, keys).contains(a) <==> es.contains(a),
{
    lemma_reorder_entries(es, keys);
    let idx = stable_order(keys);
    let r = reorder(es, keys);
    assert forall|i: int, j: int| 0 <= i < r.len() && 0 <= j < r.len() && i != j implies r[i] != r[j] by {
        if i < j {
            assert(idx[i] != idx[j]);
        } else {
            assert(idx[j] != idx[i]);
        }
    }
    assert forall|a: SfntDirectoryEntry|
        #![trigger r.contains(a)]
        #![trigger es.contains(a)]
        r.contains(a) <==> es.contains(a) by {
        if r.contains(a) {
            let i = choose|i: int| 0 <= i < r.len() && r[i] == a;
            assert(es[idx[i] as int] == a);
        }
        if es.contains(a) {
            let j = choose|j: int| 0 <= j < es.len() && es[j] == a;
            let i = lemma_reorder_hits(es, keys, j);
            assert(r[i] == a);
        }
    }
}

/// Entries put in a stable order by their offsets come by offset.
proof fn lemma_physical_sorted(d: Seq<SfntDirectoryEntry>)
    requires
        d.len() <= usize::MAX + 1,
    ensures
        forall|i: int, j: int|
            0 <= i < j < spec_physical_order(d).len() ==> #[trigger] spec_physical_order(d)[i].offset
                <= #[trigger] spec_physical_order(d)[j].offset,
{
    let ok = offset_keys(d);
    lemma_reorder_entries(d, ok);
    lemma_stable_order_exists(ok);
    let idx = stable_order(ok);
    let p = spec_physical_order(d);
    assert forall|i: int, j: int| 0 <= i < j < p.len() implies #[trigger] p[i].offset <= #[trigger] p[j].offset by {
        assert(crate::sort::key_lt(ok, idx[i] as int, idx[j] as int));
        assert(p[i] == d[idx[i] as int] && p[j] == d[idx[j] as int]);
    }
}

/// The two maps hold tables under the same tags, of the same lengths and
/// checksums.
pub open spec fn same_layout(a: Map<u32, NamedTable>, b: Map<u32, NamedTable>) -> bool {
    &&& a.dom() == b.dom()
    &&& forall|k: u32|
        #![trigger a[k]]
        #![trigger b[k]]
        a.contains_key(k) ==> a[k].len_spec() == b[k].len_spec() && a[k].checksum_spec()
            == b[k].checksum_spec()
}

/// A table read back as a written one has the length, the checksum and, but
/// for the checksum adjustment of a 'head' table, the bytes of it.
proof fn lemma_read_back_same(read: NamedTable, written: NamedTable)
    requires
        reads_back_as(read, written),
    ensures
        read.len_spec() == written.len_spec(),
        read.checksum_spec() == written.checksum_spec(),
        read.bytes_spec() == written.bytes_spec(),
        read is Head <==> written is Head,
{
    match (read, written) {
        (NamedTable::C2PA(a), NamedTable::C2PA(b)) => {
            assert(a.uri_bytes() == b.uri_bytes());
            assert(a.store_bytes() == b.store_bytes());
            assert(a.spec_raw() == b.spec_raw());
        },
        _ => {},
    }
}

/// Laying out entries gives the same entries, ending at the same place,
/// for two maps of tables of the same lengths and checksums.
proof fn lemma_layout_same(es: Seq<SfntDirectoryEntry>, a: Map<u32, NamedTable>, b: Map<u32, NamedTable>, start: int)
    requires
        same_layout(a, b),
    ensures
        layout_entries(es, a, start) == layout_entries(es, b, start),
        layout_end(es, a, start) == layout_end(es, b, start),
    decreases es.len(),
{
    if es.len() > 0 {
        lemma_layout_same(es.drop_last(), a, b, start);
        let k = es.last().tag.spec_key();
        if a.contains_key(k) {
            assert(b.contains_key(k));
            let _ = a[k];
        } else {
            assert(!b.dom().contains(k));
        }
    }
}

/// Each entry is where the tables of the entries before it end, and
/// records the length and checksum of a table of `t`.
pub open spec fn laid_out_in_order(l: Seq<SfntDirectoryEntry>, t: Map<u32, NamedTable>, start: int) -> bool {
    forall|i: int|
        #![trigger l[i]]
        0 <= i < l.len() ==> {
            &&& t.contains_key(l[i].tag.spec_key())
            &&& l[i].checksum == t[l[i].tag.spec_key()].checksum_spec()
            &&& l[i].length == t[l[i].tag.spec_key()].len_spec()
            &&& l[i].offset == layout_end(l.take(i), t, start)
        }
}

/// Laying out entries that are laid out already gives them back.
proof fn lemma_relayout(l: Seq<SfntDirectoryEntry>, t: Map<u32, NamedTable>, start: int)
    requires
        laid_out_in_order(l, t, start),
    ensures
        layout_entries(l, t, start) == l,
    decreases l.len(),
{
    if l.len() > 0 {
        let ld = l.drop_last();
        assert forall|i: int| #![trigger ld[i]] 0 <= i < ld.len() implies {
            &&& t.contains_key(ld[i].tag.spec_key())
            &&& ld[i].checksum == t[ld[i].tag.spec_key()].checksum_spec()
            &&& ld[i].length == t[ld[i].tag.spec_key()].len_spec()
            &&& ld[i].offset == layout_end(ld.take(i), t, start)
        } by {
            assert(ld[i] == l[i]);
            assert(ld.take(i) =~= l.take(i));
        }
        lemma_relayout(ld, t, start);
        let n = l.len() - 1;
        assert(l.last() == l[n]);
        assert(l.take(n) =~= ld);
        assert(layout_entries(l, t, start) =~= ld.push(l.last()));
    }
}

/// The place where laying out ends is the same for the laid-out entries.
proof fn lemma_layout_end_of_layout(es: Seq<SfntDirectoryEntry>, t: Map<u32, NamedTable>, start: int)
    ensures
        layout_end(layout_entries(es, t, start), t, start) == layout_end(es, t, start),
    decreases es.len(),
{
    if es.len() > 0 {
        lemma_layout_end_of_layout(es.drop_last(), t, start);
        let prev = layout_entries(es.drop_last(), t, start);
        let k = es.last().tag.spec_key();
        if t.contains_key(k) {
            let l = layout_entries(es, t, start);
            assert(l.drop_last() =~= prev);
        }
    }
}

/// Laying out entries whose offsets fit lays them out in order.
proof fn lemma_layout_in_order(es: Seq<SfntDirectoryEntry>, t: Map<u32, NamedTable>, start: int)
    requires
        forall|i: int| 0 <= i <= es.len() ==> #[trigger] layout_end(es.take(i), t, start) <= u32::MAX,
        start >= 0,
    ensures
        laid_out_in_order(layout_entries(es, t, start), t, start),
    decreases es.len(),
{
    if es.len() > 0 {
        let ed = es.drop_last();
        assert forall|i: int| 0 <= i <= ed.len() implies #[trigger] layout_end(ed.take(i), t, start) <= u32::MAX by {
            assert(ed.take(i) =~= es.take(i));
        }
        lemma_layout_in_order(ed, t, start);
        let prev = layout_entries(ed, t, start);
        let k = es.last().tag.spec_key();
        if t.contains_key(k) {
            let l = layout_entries(es, t, start);
            assert(l.drop_last() =~= prev);
            assert(es.take(ed.len() as int) =~= ed);
            lemma_layout_end_nonneg(ed, t, start);
            lemma_layout_end_of_layout(ed, t, start);
            assert forall|i: int| #![trigger l[i]] 0 <= i < l.len() implies {
                &&& t.contains_key(l[i].tag.spec_key())
                &&& l[i].checksum == t[l[i].tag.spec_key()].checksum_spec()
                &&& l[i].length == t[l[i].tag.spec_key()].len_spec()
                &&& l[i].offset == layout_end(l.take(i), t, start)
            } by {
                if i < prev.len() {
                    assert(l[i] == prev[i]);
                    assert(l.take(i) =~= prev.take(i));
                } else {
                    assert(l.take(i) =~= prev);
                }
            }
        }
    }
}

/// Laying out never ends before it starts.
proof fn lemma_layout_end_nonneg(es: Seq<SfntDirectoryEntry>, t: Map<u32, NamedTable>, start: int)
    requires
        start >= 0,
    ensures
        layout_end(es, t, start) >= start,
    decreases es.len(),
{
    if es.len() > 0 {
        lemma_layout_end_nonneg(es.drop_last(), t, start);
        let k = es.last().tag.spec_key();
        if t.contains_key(k) {
            assert(spec_align4(t[k].len_spec() as int) >= 0);
        }
    }
}

/// Laying out more entries ends no earlier.
proof fn lemma_layout_end_grows(l: Seq<SfntDirectoryEntry>, t: Map<u32, NamedTable>, start: int, a: int, b: int)
    requires
        0 <= a <= b <= l.len(),
    ensures
        layout_end(l.take(a), t, start) <= layout_end(l.take(b), t, start),
    decreases b - a,
{
    if a < b {
        lemma_layout_end_grows(l, t, start, a, b - 1);
        assert(l.take(b).drop_last() =~= l.take(b - 1));
        let k = l.take(b).last().tag.spec_key();
        if t.contains_key(k) {
            assert(spec_align4(t[k].len_spec() as int) >= 0);
        }
    }
}

/// Entry `a` comes before entry `b` by offset, then by tag.
pub open spec fn entry_before(a: SfntDirectoryEntry, b: SfntDirectoryEntry) -> bool {
    a.offset < b.offset || (a.offset == b.offset && a.tag.spec_key() < b.tag.spec_key())
}

/// Writing lays out the tables that it puts at the same offset, as it does
/// empty tables, in increasing order of their tags.
pub open spec fn ties_in_tag_order(f: SfntFont) -> bool {
    let l = spec_laid_out(f);
    forall|i: int, j: int|
        0 <= i < j < l.len() && #[trigger] l[i].offset == #[trigger] l[j].offset ==> l[i].tag.spec_key()
            < l[j].tag.spec_key()
}

/// Two sequences of entries without repeats that hold the same entries,
/// each in order by offset, then by tag, are the same.
proof fn lemma_sorted_unique(l: Seq<SfntDirectoryEntry>, x: Seq<SfntDirectoryEntry>)
    requires
        l.no_duplicates(),
        x.no_duplicates(),
        forall|a: SfntDirectoryEntry| #![trigger x.contains(a)] #![trigger l.contains(a)] x.contains(a) <==> l.contains(a),
        forall|i: int, j: int| 0 <= i < j < x.len() ==> entry_before(#[trigger] x[i], #[trigger] x[j]),
        forall|i: int, j: int| 0 <= i < j < l.len() ==> entry_before(#[trigger] l[i], #[trigger] l[j]),
    ensures
        x == l,
    decreases l.len(),
{
    if l.len() == 0 {
        if x.len() > 0 {
            assert(x.contains(x[0]));
        }
        assert(x =~= l);
    } else {
        let n = l.len();
        let e = l.last();
        assert(l.contains(e)) by {
            assert(l[n - 1] == e);
        }
        assert(x.contains(e));
        let k = choose|k: int| 0 <= k < x.len() && x[k] == e;
        let m = x.len() - 1;
        if k != m {
            assert(x.contains(x[m]));
            let q = choose|q: int| 0 <= q < l.len() && l[q] == x[m];
            assert(entry_before(x[k], x[m]));
            if q < n - 1 {
                assert(entry_before(l[q], l[n - 1]));
            }
            assert(x[m] == x[k]);
        }
        lemma_same_entries_remove(l, x, k);
        assert(x.remove(k) =~= x.drop_last());
        let xd = x.drop_last();
        let ld = l.drop_last();
        assert forall|i: int, j: int| 0 <= i < j < xd.len() implies entry_before(#[trigger] xd[i], #[trigger] xd[j]) by {
            assert(xd[i] == x[i] && xd[j] == x[j]);
        }
        assert forall|i: int, j: int| 0 <= i < j < ld.len() implies entry_before(#[trigger] ld[i], #[trigger] ld[j]) by {
            assert(ld[i] == l[i] && ld[j] == l[j]);
        }
        lemma_sorted_unique(ld, xd);
        assert(x =~= xd.push(e));
        assert(l =~= ld.push(e));
    }
}

/// Entries of increasing tags put in order by offset come by offset, then
/// by tag.
proof fn lemma_physical_lex(d: Seq<SfntDirectoryEntry>)
    requires
        d.len() <= usize::MAX + 1,
        forall|i: int, j: int| 0 <= i < j < d.len() ==> #[trigger] d[i].tag.spec_key() < #[trigger] d[j].tag.spec_key(),
    ensures
        forall|i: int, j: int|
            0 <= i < j < spec_physical_order(d).len() ==> entry_before(
                #[trigger] spec_physical_order(d)[i],
                #[trigger] spec_physical_order(d)[j],
            ),
{
    let ok = offset_keys(d);
    lemma_reorder_entries(d, ok);
    lemma_stable_order_exists(ok);
    let idx = stable_order(ok);
    let p = spec_physical_order(d);
    assert forall|i: int, j: int| 0 <= i < j < p.len() implies entry_before(#[trigger] p[i], #[trigger] p[j]) by {
        assert(crate::sort::key_lt(ok, idx[i] as int, idx[j] as int));
        assert(p[i] == d[idx[i] as int] && p[j] == d[idx[j] as int]);
    }
}

/// The entries that writing lays out come by offset, then by tag, when
/// those at the same offset come in increasing order of tags.
proof fn lemma_laid_lex(f: SfntFont)
    requires
        roundtrip_ready(f),
        ties_in_tag_order(f),
    ensures
        forall|i: int, j: int|
            0 <= i < j < spec_laid_out(f).len() ==> entry_before(
                #[trigger] spec_laid_out(f)[i],
                #[trigger] spec_laid_out(f)[j],
            ),
{
    let l = spec_laid_out(f);
    let t = f.tables@;
    let start = spec_first_offset(f);
    lemma_laid_out_in_order(f);
    assert forall|i: int, j: int| 0 <= i < j < l.len() implies entry_before(#[trigger] l[i], #[trigger] l[j]) by {
        lemma_layout_end_grows(l, t, start, i, j);
        assert(l[i].offset == layout_end(l.take(i), t, start));
        assert(l[j].offset == layout_end(l.take(j), t, start));
    }
}

/// The bytes of the tables that entries name are the same for two maps
/// that hold tables of the same bytes under the same tags.
proof fn lemma_tables_bytes_same(es: Seq<SfntDirectoryEntry>, a: Map<u32, NamedTable>, b: Map<u32, NamedTable>)
    requires
        a.dom() == b.dom(),
        forall|k: u32| #![trigger a[k]] a.contains_key(k) ==> a[k].bytes_spec() == b[k].bytes_spec(),
    ensures
        tables_bytes(es, a) == tables_bytes(es, b),
    decreases es.len(),
{
    if es.len() > 0 {
        lemma_tables_bytes_same(es.drop_last(), a, b);
        let k = es.last().tag.spec_key();
        if a.contains_key(k) {
            let _ = a[k];
            assert(b.contains_key(k));
        } else {
            assert(!b.dom().contains(k));
        }
    }
}

/// Writing lays out the tables of a font that writing gives back on
/// reading in order, each where the ones before it end.
proof fn lemma_laid_out_in_order(f: SfntFont)
    requires
        roundtrip_ready(f),
    ensures
        laid_out_in_order(spec_laid_out(f), f.tables@, spec_first_offset(f)),
{
    lemma_laid_out_in_order_fits(f);
}

/// Writing lays out the tables of a font whose layout fits 32-bit offsets
/// in order, each where the ones before it end.
pub(crate) proof fn lemma_laid_out_in_order_fits(f: SfntFont)
    requires
        layout_fits(spec_physical_order(f.directory@), f.tables@, spec_first_offset(f)),
    ensures
        laid_out_in_order(spec_laid_out(f), f.tables@, spec_first_offset(f)),
{
    let t = f.tables@;
    let start = spec_first_offset(f);
    let phys = spec_physical_order(f.directory@);
    let laid = layout_entries(phys, t, start);
    let l = spec_laid_out(f);
    lemma_layout_in_order(phys, t, start);
    if l != laid {
        assert(phys.take(phys.len() as int) =~= phys);
        lemma_layout_end_nonneg(phys, t, start);
        lemma_layout_end_of_layout(phys, t, start);
        assert forall|i: int| #![trigger l[i]] 0 <= i < l.len() implies {
            &&& t.contains_key(l[i].tag.spec_key())
            &&& l[i].checksum == t[l[i].tag.spec_key()].checksum_spec()
            &&& l[i].length == t[l[i].tag.spec_key()].len_spec()
            &&& l[i].offset == layout_end(l.take(i), t, start)
        } by {
            if i < laid.len() {
                assert(l[i] == laid[i]);
                assert(l.take(i) =~= laid.take(i));
            } else {
                assert(l.take(i) =~= laid);
                assert(l[i].tag == c2pa_tag());
                assert(c2pa_tag().spec_key() == c2pa_key());
            }
        }
    }
}

/// Setting the checksum adjustment keeps the tags, lengths and checksums of
/// the tables.
proof fn lemma_adjusted_same(t: Map<u32, NamedTable>, adj: u32)
    ensures
        same_layout(spec_adjusted_tables(t, adj), t),
{
    let t2 = spec_adjusted_tables(t, adj);
    if t.contains_key(head_key()) {
        if let NamedTable::Head(h) = t[head_key()] {
            let h2 = TableHead { checksumAdjustment: adj, ..h };
            assert(t2.dom() =~= t.dom());
            assert(h2.spec_words(0) =~= h.spec_words(0));
        }
    }
}

/// The font read from bytes that writing wrote has the directory that
/// writing made, and tables of the lengths, checksums and bytes of the
/// written ones.
#[verifier::spinoff_prover]
proof fn lemma_read_written(f: SfntFont, s: StreamState, g: SfntFont)
    requires
        roundtrip_ready(f),
        s.data == spec_written_bytes(f),
        s.pos == 0,
        spec_font_read(s, Ok::<SfntFont, FontIoError>(g)),
    ensures
        g.header == spec_written(f).0,
        g.directory@ == spec_written(f).1,
        same_layout(g.tables@, f.tables@),
        forall|k: u32|
            #![trigger g.tables@[k]]
            g.tables@.contains_key(k) ==> g.tables@[k].bytes_spec() == spec_written(f).2[k].bytes_spec()
                && (g.tables@[k] is Head <==> spec_written(f).2[k] is Head),
        spec_written(f).2.contains_key(head_key()) && spec_written(f).2[head_key()] is Head
            ==> g.tables@[head_key()] == spec_written(f).2[head_key()],
{
    let w = spec_written(f);
    let t = f.tables@;
    let adj = written_adjustment(f);
    law_read_after_write(f, s, Ok::<SfntFont, FontIoError>(g));
    lemma_written_layout(f);
    assert forall|i: int| 0 <= i < w.1.len() implies g.directory@[i] == w.1[i] by {
        let a = g.directory@[i].tag;
        let b = w.1[i].tag;
        assert(a@ == b@);
        assert forall|q: int| 0 <= q < 4 implies a.data[q] == b.data[q] by {
            assert(a.data[q] == a@[q]);
            assert(b.data[q] == b@[q]);
        }
        assert(a.data =~= b.data);
    }
    assert(g.directory@ =~= w.1);
    lemma_adjusted_same(t, adj);
    assert forall|k: u32| #![trigger g.tables@[k]] g.tables@.contains_key(k) implies {
        &&& g.tables@[k].bytes_spec() == w.2[k].bytes_spec()
        &&& (g.tables@[k] is Head <==> w.2[k] is Head)
        &&& g.tables@[k].len_spec() == t[k].len_spec()
        &&& g.tables@[k].checksum_spec() == t[k].checksum_spec()
    } by {
        lemma_read_back_same(g.tables@[k], w.2[k]);
        let _ = t[k];
        let _ = w.2[k];
    }
    assert forall|k: u32| #![trigger t[k]] t.contains_key(k) implies g.tables@[k].len_spec() == t[k].len_spec()
        && g.tables@[k].checksum_spec() == t[k].checksum_spec() by {
        assert(g.tables@.dom().contains(k));
        let _ = g.tables@[k];
    }
    if w.2.contains_key(head_key()) && w.2[head_key()] is Head {
        let _ = g.tables@[head_key()];
        assert(g.tables@.contains_key(head_key()));
        lemma_read_back_same(g.tables@[head_key()], w.2[head_key()]);
    }
}

/// Writing a font read from bytes that writing wrote gives those bytes back:
/// a font in the form that writing gives it, read and written again without
/// change, is written byte for byte as it was read, and writing accepts it.
/// This holds of the bytes written for a font whose directory names each
/// table once and every table but a C2PA table, whose tables are of the
/// kinds that their tags are read as and fill whole words where the
/// directory names them, which writing accepts, and whose tables that
/// writing puts at the same offset (empty tables, and the one after them)
/// come in increasing order of tags: otherwise the directory that writing
/// sorts by tag puts them in another order, and writing again moves them.
#[verifier::spinoff_prover]
#[verifier::rlimit(40)]
pub proof fn law_write_after_read(f: SfntFont, s: StreamState, g: SfntFont)
    requires
        roundtrip_ready(f),
        ties_in_tag_order(f),
        s.data == spec_written_bytes(f),
        s.pos == 0,
        spec_font_read(s, Ok::<SfntFont, FontIoError>(g)),
    ensures
        spec_write_checks_pass(g),
        spec_written_bytes(g) == s.data,
{
    let w = spec_written(f);
    let t = f.tables@;
    let tg = g.tables@;
    let d = w.1;
    let l = spec_laid_out(f);
    let start = spec_first_offset(f);
    let adj = written_adjustment(f);
    lemma_read_written(f, s, g);
    lemma_written_layout(f);
    lemma_laid_out_facts(f, adj);
    assert(tg.dom() == t.dom());
    assert(tg.len() == t.len());
    assert(spec_first_offset(g) == start);
    // The written directory, in the order of its offsets, is the laid-out
    // entries themselves.
    assert(l.no_duplicates()) by {
        assert forall|i: int, j: int| 0 <= i < l.len() && 0 <= j < l.len() && i != j implies l[i] != l[j] by {
            if i < j {
                assert(l[i].tag.spec_key() != l[j].tag.spec_key());
            } else {
                assert(l[j].tag.spec_key() != l[i].tag.spec_key());
            }
        }
    }
    lemma_reorder_same(l, tag_keys(l));
    lemma_reorder_entries(l, tag_keys(l));
    lemma_reorder_same(d, offset_keys(d));
    lemma_physical_sorted(d);
    let x = spec_physical_order(d);
    assert forall|a: SfntDirectoryEntry| #![trigger x.contains(a)] #![trigger l.contains(a)] x.contains(a) <==> l.contains(a) by {
        assert(x.contains(a) <==> d.contains(a));
        assert(d.contains(a) <==> l.contains(a));
    }
    lemma_laid_out_in_order(f);
    lemma_written_tag_order(f);
    lemma_physical_lex(d);
    lemma_laid_lex(f);
    lemma_sorted_unique(l, x);
    // Reading gives a directory that names the C2PA table, if any.
    if tg.contains_key(c2pa_key()) {
        lemma_laid_out_covers(f, c2pa_key());
        let q = choose|q: int| 0 <= q < l.len() && #[trigger] l[q].tag.spec_key() == c2pa_key();
        assert(x[q] == l[q]);
        assert(l.contains(l[q]));
        assert(d.contains(l[q]));
        let p = choose|p: int| 0 <= p < d.len() && d[p] == l[q];
        assert(d[p].tag.spec_key() == c2pa_key());
        assert(names_key(d, c2pa_key()));
        lemma_has_c2pa(d);
    }
    // Laying the tables out again gives the same entries.
    lemma_layout_same(l, tg, t, start);
    lemma_relayout(l, t, start);
    assert(spec_laid_out(g) == l);
    let wg = spec_written(g);
    assert(wg.0 == w.0);
    assert(wg.1 == d);
    assert(written_adjustment(g) == adj);
    // The adjusted tables have the same bytes.
    let t2 = w.2;
    let tg2 = wg.2;
    assert(t2 == spec_adjusted_tables(t, adj));
    assert(tg2 == spec_adjusted_tables(tg, adj));
    assert(tg2.dom() == t2.dom()) by {
        lemma_adjusted_same(t, adj);
        lemma_adjusted_same(tg, adj);
    }
    assert forall|k: u32| #![trigger tg2[k]] tg2.contains_key(k) implies tg2[k].bytes_spec() == t2[k].bytes_spec() by {
        assert(tg.contains_key(k));
        let _ = tg[k];
        if k == head_key() && tg[k] is Head {
            let h = tg[k]->Head_0;
            assert(t2[k] is Head);
            assert(tg[k] == t2[k]);
            assert(tg2[k] == NamedTable::Head(TableHead { checksumAdjustment: adj, ..h }));
            assert(t2[k] == NamedTable::Head(TableHead { checksumAdjustment: adj, ..h }));
        } else if k == head_key() {
            assert(!(t2[k] is Head));
            assert(tg2 == tg);
        } else {
            assert(tg2[k] == tg[k]);
        }
    }
    lemma_tables_bytes_same(x, tg2, t2);
}

/// Laying out from a start that is a multiple of four ends at a multiple of
/// four.
proof fn lemma_layout_end_aligned(es: Seq<SfntDirectoryEntry>, t: Map<u32, NamedTable>, start: int)
    requires
        start % 4 == 0,
    ensures
        layout_end(es, t, start) % 4 == 0,
    decreases es.len(),
{
    if es.len() > 0 {
        lemma_layout_end_aligned(es.drop_last(), t, start);
        let k = es.last().tag.spec_key();
        if t.contains_key(k) {
            let n = t[k].len_spec() as int;
            let e = layout_end(es.drop_last(), t, start);
            assert((e + ((n + 3) / 4) * 4) % 4 == 0) by (nonlinear_arith)
                requires
                    e % 4 == 0,
            ;
        }
    }
}

/// What writing a font that writing gives back on reading makes: a header
/// that counts its tables and holds the binary-search fields of that count;
/// a directory with one entry for each table, in increasing order of tags,
/// each recording its table's length and checksum; and each table's bytes
/// at its entry's offset, a multiple of four past the directory. This
/// holds of a font whose directory names each table once and every table
/// but a C2PA table, whose tables are of the kinds that their tags are read
/// as and fill whole words where the directory names them, and which
/// writing accepts.
#[verifier::spinoff_prover]
#[verifier::rlimit(80)]
pub proof fn law_written_layout(f: SfntFont)
    requires
        roundtrip_ready(f),
    ensures
        ({
            let w = spec_written(f);
            let t = f.tables@;
            let n = t.len();
            let b = spec_written_bytes(f);
            &&& w.0.numTables == n
            &&& w.0.entrySelector == crate::sfnt::font::log2_floor(n)
            &&& w.0.searchRange == 16 * crate::sfnt::font::pow2(w.0.entrySelector as nat)
            &&& w.0.rangeShift == 16 * n - w.0.searchRange
            &&& w.1.len() == n
            &&& forall|i: int, j: int|
                0 <= i < j < w.1.len() ==> #[trigger] w.1[i].tag.spec_key() < #[trigger] w.1[j].tag.spec_key()
            &&& forall|k: u32| #![trigger names_key(w.1, k)] t.contains_key(k) ==> names_key(w.1, k)
            &&& forall|i: int|
                #![trigger w.1[i]]
                0 <= i < w.1.len() ==> {
                    let k = w.1[i].tag.spec_key();
                    let o = w.1[i].offset as int;
                    &&& t.contains_key(k)
                    &&& w.1[i].length == t[k].len_spec()
                    &&& w.1[i].checksum == t[k].checksum_spec()
                    &&& o % 4 == 0
                    &&& o >= 12 + 16 * n
                    &&& o + w.2[k].bytes_spec().len() <= b.len()
                    &&& b.subrange(o, o + w.2[k].bytes_spec().len()) == w.2[k].bytes_spec()
                }
        }),
{
    lemma_written_header_fields(f);
    lemma_written_tag_order(f);
    lemma_written_names_all(f);
    lemma_written_entries(f);
}

/// The directory that writing makes names every table of the font.
#[verifier::spinoff_prover]
proof fn lemma_written_names_all(f: SfntFont)
    requires
        roundtrip_ready(f),
    ensures
        forall|k: u32| #![trigger names_key(spec_written(f).1, k)] f.tables@.contains_key(k) ==> names_key(spec_written(f).1, k),
{
    let d = spec_written(f).1;
    assert forall|k: u32| #![trigger names_key(d, k)] f.tables@.contains_key(k) implies names_key(d, k) by {
        lemma_written_names(f, k);
    }
}

/// Each entry of the directory that writing makes records its table's
/// length and checksum, and the table's bytes stand at its offset.
#[verifier::spinoff_prover]
proof fn lemma_written_entries(f: SfntFont)
    requires
        roundtrip_ready(f),
    ensures
        ({
            let w = spec_written(f);
            let t = f.tables@;
            let n = t.len();
            let b = spec_written_bytes(f);
            forall|i: int|
                #![trigger w.1[i]]
                0 <= i < w.1.len() ==> {
                    let k = w.1[i].tag.spec_key();
                    let o = w.1[i].offset as int;
                    &&& t.contains_key(k)
                    &&& w.1[i].length == t[k].len_spec()
                    &&& w.1[i].checksum == t[k].checksum_spec()
                    &&& o % 4 == 0
                    &&& o >= 12 + 16 * n
                    &&& o + w.2[k].bytes_spec().len() <= b.len()
                    &&& b.subrange(o, o + w.2[k].bytes_spec().len()) == w.2[k].bytes_spec()
                }
        }),
{
    let w = spec_written(f);
    assert forall|i: int| #![trigger w.1[i]] 0 <= i < w.1.len() implies {
        let t = f.tables@;
        let k = w.1[i].tag.spec_key();
        let o = w.1[i].offset as int;
        let b = spec_written_bytes(f);
        &&& t.contains_key(k)
        &&& w.1[i].length == t[k].len_spec()
        &&& w.1[i].checksum == t[k].checksum_spec()
        &&& o % 4 == 0
        &&& o >= 12 + 16 * t.len()
        &&& o + w.2[k].bytes_spec().len() <= b.len()
        &&& b.subrange(o, o + w.2[k].bytes_spec().len()) == w.2[k].bytes_spec()
    } by {
        lemma_written_entry(f, i);
    }
}

/// The header that writing makes counts the tables and holds the
/// binary-search fields of that count.
proof fn lemma_written_header_fields(f: SfntFont)
    requires
        roundtrip_ready(f),
    ensures
        ({
            let w = spec_written(f);
            let n = f.tables@.len();
            &&& w.0.numTables == n
            &&& w.0.entrySelector == crate::sfnt::font::log2_floor(n)
            &&& w.0.searchRange == 16 * crate::sfnt::font::pow2(w.0.entrySelector as nat)
            &&& w.0.rangeShift == 16 * n - w.0.searchRange
            &&& w.1.len() == n
        }),
{
    let n = f.tables@.len();
    lemma_laid_out_count(f);
    crate::sfnt::directory::lemma_directory_len(&f.directory);
    lemma_reorder_entries(spec_laid_out(f), tag_keys(spec_laid_out(f)));
    let es = crate::sfnt::font::log2_floor(n);
    crate::sfnt::font::lemma_pow2_log2_floor(n);
    crate::sfnt::font::lemma_pow2_positive(es);
    assert(f.tables@.len() == crate::sfnt::font::spec_table_count(f));
}

/// The directory that writing makes is in increasing order of tags.
#[verifier::spinoff_prover]
proof fn lemma_written_tag_order(f: SfntFont)
    requires
        roundtrip_ready(f),
    ensures
        ({
            let d = spec_written(f).1;
            forall|i: int, j: int|
                0 <= i < j < d.len() ==> #[trigger] d[i].tag.spec_key() < #[trigger] d[j].tag.spec_key()
        }),
{
    let l = spec_laid_out(f);
    let d = spec_written(f).1;
    lemma_laid_out_distinct(f);
    lemma_laid_out_count(f);
    assert(d == reorder(l, tag_keys(l)));
    lemma_reorder_entries(l, tag_keys(l));
    lemma_stable_order_exists(tag_keys(l));
    let idx = stable_order(tag_keys(l));
    assert forall|i: int, j: int| 0 <= i < j < d.len() implies #[trigger] d[i].tag.spec_key()
        < #[trigger] d[j].tag.spec_key() by {
        assert(crate::sort::key_lt(tag_keys(l), idx[i] as int, idx[j] as int));
        assert(d[i] == l[idx[i] as int] && d[j] == l[idx[j] as int]);
        let x = idx[i] as int;
        let y = idx[j] as int;
        if x < y {
            assert(l[x].tag.spec_key() != l[y].tag.spec_key());
        } else {
            assert(l[y].tag.spec_key() != l[x].tag.spec_key());
        }
    }
}

/// The directory that writing makes names every table of the font.
#[verifier::spinoff_prover]
#[verifier::rlimit(80)]
proof fn lemma_written_names(f: SfntFont, k: u32)
    requires
        roundtrip_ready(f),
        f.tables@.contains_key(k),
    ensures
        names_key(spec_written(f).1, k),
{
    let l = spec_laid_out(f);
    lemma_laid_out_count(f);
    lemma_laid_out_covers(f, k);
    let q = choose|q: int| 0 <= q < l.len() && #[trigger] l[q].tag.spec_key() == k;
    lemma_names_after_reorder(l, q, k);
}

/// Putting entries in the order of their tags keeps the tags that they
/// name.
proof fn lemma_names_after_reorder(l: Seq<SfntDirectoryEntry>, q: int, k: u32)
    requires
        0 <= q < l.len(),
        l.len() <= usize::MAX,
        l[q].tag.spec_key() == k,
    ensures
        names_key(spec_tag_order(l), k),
{
    lemma_reorder_entries(l, tag_keys(l));
    let p = lemma_reorder_hits(l, tag_keys(l), q);
    assert(spec_tag_order(l)[p].tag.spec_key() == k);
}

/// An entry of the directory that writing makes records its table's length
/// and checksum, and the table's bytes stand at its offset, a multiple of
/// four past the directory.
#[verifier::spinoff_prover]
proof fn lemma_written_entry(f: SfntFont, i: int)
    requires
        roundtrip_ready(f),
        0 <= i < spec_written(f).1.len(),
    ensures
        ({
            let w = spec_written(f);
            let t = f.tables@;
            let b = spec_written_bytes(f);
            let k = w.1[i].tag.spec_key();
            let o = w.1[i].offset as int;
            &&& t.contains_key(k)
            &&& w.1[i].length == t[k].len_spec()
            &&& w.1[i].checksum == t[k].checksum_spec()
            &&& o % 4 == 0
            &&& o >= 12 + 16 * t.len()
            &&& o + w.2[k].bytes_spec().len() <= b.len()
            &&& b.subrange(o, o + w.2[k].bytes_spec().len()) == w.2[k].bytes_spec()
        }),
{
    let w = spec_written(f);
    let t = f.tables@;
    let b = spec_written_bytes(f);
    let l = spec_laid_out(f);
    let start = spec_first_offset(f);
    lemma_written_layout(f);
    lemma_laid_out_in_order(f);
    let q = stable_order(tag_keys(l))[i] as int;
    assert(w.1[i] == l[q]);
    lemma_table_at(f, q);
    lemma_layout_end_aligned(l.take(q), t, start);
    lemma_layout_end_nonneg(l.take(q), t, start);
    let k = l[q].tag.spec_key();
    let o = l[q].offset as int;
    let bytes = w.2[k].bytes_spec();
    assert(b.subrange(o, o + bytes.len()) =~= b.subrange(o, b.len() as int).subrange(0, bytes.len() as int));
}

/// Setting the checksum adjustment keeps which tables there are, their
/// lengths and the lengths of their bytes.
proof fn lemma_adjusted_lengths(t: Map<u32, NamedTable>, adj: u32, k: u32)
    requires
        t.contains_key(k),
    ensures
        spec_adjusted_tables(t, adj).dom() == t.dom(),
        spec_adjusted_tables(t, adj)[k].len_spec() == t[k].len_spec(),
        spec_adjusted_tables(t, adj)[k].bytes_spec().len() == t[k].bytes_spec().len(),
{
    let t2 = spec_adjusted_tables(t, adj);
    if t.contains_key(head_key()) {
        if let NamedTable::Head(h) = t[head_key()] {
            assert(t2.dom() =~= t.dom());
            if k == head_key() {
                let h2 = TableHead { checksumAdjustment: adj, ..h };
                crate::utils::lemma_checksum_words(h.spec_words(h.checksumAdjustment));
                crate::utils::lemma_checksum_words(h2.spec_words(h2.checksumAdjustment));
            }
        }
    }
}

/// Where laying out ends is where the bytes of the tables laid out end,
/// when each table's bytes are as long as its length rounded up to four.
proof fn lemma_layout_end_bytes(
    p: Seq<SfntDirectoryEntry>,
    t: Map<u32, NamedTable>,
    t2: Map<u32, NamedTable>,
    start: int,
)
    requires
        t2.dom() == t.dom(),
        forall|j: int|
            #![trigger p[j]]
            0 <= j < p.len() && t.contains_key(p[j].tag.spec_key()) ==> t2[p[j].tag.spec_key()].bytes_spec().len()
                == spec_align4(t[p[j].tag.spec_key()].len_spec() as int),
    ensures
        layout_end(p, t, start) == start + tables_bytes(p, t2).len(),
    decreases p.len(),
{
    if p.len() > 0 {
        let pd = p.drop_last();
        assert forall|j: int|
            #![trigger pd[j]]
            0 <= j < pd.len() && t.contains_key(pd[j].tag.spec_key()) implies t2[pd[j].tag.spec_key()].bytes_spec().len()
                == spec_align4(t[pd[j].tag.spec_key()].len_spec() as int) by {
            assert(pd[j] == p[j]);
        }
        lemma_layout_end_bytes(pd, t, t2, start);
        assert(p.last() == p[p.len() - 1]);
        let k = p.last().tag.spec_key();
        if !t.contains_key(k) {
            assert(!t2.dom().contains(k));
        }
    }
}

/// The bytes of the tables that writing a font writes, in the order of
/// their offsets, have the wrapping sum of what each table adds as their
/// checksum, when the bytes of every table laid out but the last are as long
/// as its length rounded up to four.
#[verifier::spinoff_prover]
#[verifier::rlimit(40)]
pub(crate) proof fn lemma_written_tables_checksum_last(f: SfntFont)
    requires
        tags_distinct(f.directory@),
        only_last_unaligned(f),
    ensures
        ({
            let w = spec_written(f);
            let phys = spec_physical_order(w.1);
            spec_checksum(tables_bytes(phys, w.2)) == words_sum(
                phys.map_values(|e: SfntDirectoryEntry| table_contribution(w.2, e)),
            )
        }),
{
    let w = spec_written(f);
    let d = w.1;
    let t2 = w.2;
    let t = f.tables@;
    let l = spec_laid_out(f);
    let start = spec_first_offset(f);
    let adj = written_adjustment(f);
    assert(t2 == spec_adjusted_tables(t, adj));
    lemma_laid_out_distinct(f);
    crate::sfnt::integrity::lemma_laid_out_len(f);
    lemma_laid_out_in_order_fits(f);
    assert(t2.dom() == t.dom()) by {
        if t.contains_key(head_key()) {
            lemma_adjusted_lengths(t, adj, head_key());
        } else {
            assert(t2 == t);
        }
    }
    // Every table laid out but the last fills whole words.
    assert forall|j: int|
        #![trigger l[j]]
        0 <= j < l.len() - 1 && t.contains_key(l[j].tag.spec_key()) implies t2[l[j].tag.spec_key()].bytes_spec().len()
            == spec_align4(t[l[j].tag.spec_key()].len_spec() as int) by {
        lemma_adjusted_lengths(t, adj, l[j].tag.spec_key());
    }
    // Each laid-out table starts where the bytes of those before it end.
    assert forall|i: int|
        #![trigger l[i]]
        0 <= i < l.len() implies t2.contains_key(l[i].tag.spec_key()) && l[i].offset == start + tables_bytes(
            l.take(i),
            t2,
        ).len() by {
        let p = l.take(i);
        assert forall|j: int|
            #![trigger p[j]]
            0 <= j < p.len() && t.contains_key(p[j].tag.spec_key()) implies t2[p[j].tag.spec_key()].bytes_spec().len()
                == spec_align4(t[p[j].tag.spec_key()].len_spec() as int) by {
            assert(p[j] == l[j]);
        }
        lemma_layout_end_bytes(p, t, t2, start);
    }
    assert forall|i: int| 0 <= i < l.len() - 1 implies #[trigger] entry_bytes(t2, l[i]).len() % 4 == 0 by {
        let n = t[l[i].tag.spec_key()].len_spec() as int;
        assert(((n + 3) / 4) * 4 % 4 == 0) by (nonlinear_arith);
    }
    lemma_tables_bytes_checksum(l, t2);
    // The written directory, in the order of its offsets, has the same bytes.
    assert(l.no_duplicates()) by {
        assert forall|i: int, j: int| 0 <= i < l.len() && 0 <= j < l.len() && i != j implies l[i] != l[j] by {
            if i < j {
                assert(l[i].tag.spec_key() != l[j].tag.spec_key());
            } else {
                assert(l[j].tag.spec_key() != l[i].tag.spec_key());
            }
        }
    }
    lemma_reorder_same(l, tag_keys(l));
    lemma_reorder_entries(l, tag_keys(l));
    lemma_reorder_same(d, offset_keys(d));
    lemma_physical_sorted(d);
    let x = spec_physical_order(d);
    assert forall|a: SfntDirectoryEntry| #![trigger x.contains(a)] #![trigger l.contains(a)] x.contains(a) <==> l.contains(a) by {
        assert(x.contains(a) <==> d.contains(a));
        assert(d.contains(a) <==> l.contains(a));
    }
    lemma_sorted_same_bytes(l, x, t2, start);
    let adds = |e: SfntDirectoryEntry| table_contribution(t2, e);
    lemma_reorder_sum(l, tag_keys(l), adds);
    lemma_reorder_sum(d, offset_keys(d), adds);
}

/// The bytes that writing a font writes start with the header that OpenType
/// asks for a font of its table count `n`: the count at offset 4, sixteen
/// times the largest power of two not above `n` at offset 6, that power's
/// exponent at 8, and sixteen times `n` less the search range at 10.
#[verifier::spinoff_prover]
pub proof fn law_written_header_bytes(f: SfntFont)
    requires
        roundtrip_ready(f),
    ensures
        ({
            let b = spec_written_bytes(f);
            let n = f.tables@.len();
            let e = crate::sfnt::font::log2_floor(n);
            &&& b.len() >= 12
            &&& be_u16(b.subrange(4, 6)) == n
            &&& be_u16(b.subrange(6, 8)) == 16 * crate::sfnt::font::pow2(e)
            &&& be_u16(b.subrange(8, 10)) == e
            &&& be_u16(b.subrange(10, 12)) == 16 * n - 16 * crate::sfnt::font::pow2(e)
        }),
{
    let w = spec_written(f);
    let b = spec_written_bytes(f);
    lemma_written_header_fields(f);
    crate::sfnt::header::law_header_fields_at(w.0);
    let hb = w.0.spec_bytes();
    assert(b == hb + entries_bytes(w.1) + tables_bytes(spec_physical_order(w.1), w.2));
    assert(b.subrange(4, 6) =~= hb.subrange(4, 6));
    assert(b.subrange(6, 8) =~= hb.subrange(6, 8));
    assert(b.subrange(8, 10) =~= hb.subrange(8, 10));
    assert(b.subrange(10, 12) =~= hb.subrange(10, 12));
}

} // verus!
