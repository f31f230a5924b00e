//! The checksum of a written font: the 'head' table's checksum adjustment
//! makes a whole font sum to the value that the OpenType specification
//! expects.

use crate::sfnt::directory::{
    entries_bytes, entries_checksum, lemma_directory_len, lemma_entries_checksum_is_bytes_checksum,
    offset_keys, reorder, spec_physical_order, tag_keys, SfntDirectoryEntry,
};
use crate::sfnt::font::{
    c2pa_key, has_tag, head_key, layout_entries, layout_fits, recorded_checksums, spec_adjusted_tables,
    spec_first_offset,
    spec_adjustment, spec_font_bytes, spec_font_checksum, spec_laid_out, spec_written,
    spec_written_bytes, tables_bytes, SfntFont,
};
use crate::sfnt::header::lemma_header_checksum_is_bytes_checksum;
use crate::sfnt::roundtrip::lemma_written_tables_checksum_last;
use crate::sfnt::table::dsig::lemma_dsig_checksum_is_bytes_checksum;
use crate::sfnt::table::generic::lemma_generic_checksum_is_bytes_checksum;
use crate::sfnt::table::head::{TableHead, SFNT_EXPECTED_CHECKSUM};
use crate::sfnt::table::named_table::NamedTable;
use crate::sort::{lemma_stable_order_exists, lemma_stable_order_injective, stable_order};
use crate::tag::{head_tag, lemma_key_injective};
use crate::utils::{
    spec_align4,
    add32, lemma_add32_laws, lemma_checksum_concat, lemma_checksum_words, lemma_words_sum_permutation,
    lemma_words_sum_pointwise, lemma_words_sum_remove, spec_checksum, words_bytes, words_sum,
};
use crate::{FontDataChecksum, FontDataWrite, FontTable};
use vstd::prelude::*;

verus! {

/// What a table adds to the checksum of the font's bytes: the checksum of
/// its bytes, or nothing when the font does not hold the table.
pub open spec fn table_contribution(tables: Map<u32, NamedTable>, e: SfntDirectoryEntry) -> u32 {
    if tables.contains_key(e.tag.spec_key()) {
        spec_checksum(tables[e.tag.spec_key()].bytes_spec())
    } else {
        0
    }
}

/// The checksum of the bytes of a table is its own checksum, plus the
/// checksum adjustment for a 'head' table; the bytes of any table but a
/// C2PA table fill whole words.
pub proof fn lemma_table_bytes_checksum(t: NamedTable)
    ensures
        t is Head ==> spec_checksum(t.bytes_spec()) == add32(
            t.checksum_spec(),
            t->Head_0.checksumAdjustment,
        ),
        !(t is Head) ==> spec_checksum(t.bytes_spec()) == t.checksum_spec(),
        !(t is C2PA) ==> t.bytes_spec().len() % 4 == 0,
{
    match t {
        NamedTable::DSIG(d) => {
            lemma_dsig_checksum_is_bytes_checksum(&d);
        },
        NamedTable::Head(h) => {
            lemma_head_words_checksum(h);
        },
        NamedTable::C2PA(_) => {},
        NamedTable::Generic(g) => {
            lemma_generic_checksum_is_bytes_checksum(&g);
        },
    }
}

/// The bytes of a 'head' table fill 14 words, and their checksum is that
/// of the table plus its checksum adjustment.
proof fn lemma_head_words_checksum(h: TableHead)
    ensures
        spec_checksum(h.spec_bytes()) == add32(h.spec_checksum(), h.checksumAdjustment),
        h.spec_bytes().len() == 56,
{
    let ws = h.spec_words(h.checksumAdjustment);
    let zs = h.spec_words(0);
    lemma_checksum_words(ws);
    lemma_words_sum_remove(ws, 2);
    lemma_words_sum_remove(zs, 2);
    assert(ws.remove(2) =~= zs.remove(2));
    lemma_add32_laws(words_sum(zs.remove(2)), 0, 0);
}

/// The bytes of the table that an entry names, or none when the font does
/// not hold it.
pub open spec fn entry_bytes(tables: Map<u32, NamedTable>, e: SfntDirectoryEntry) -> Seq<u8> {
    if tables.contains_key(e.tag.spec_key()) {
        tables[e.tag.spec_key()].bytes_spec()
    } else {
        Seq::empty()
    }
}

/// The checksum of the tables' bytes, one after the other, is the wrapping
/// sum of what each adds, when the bytes of every table but the last fill
/// whole words; they fill whole words when those of every table do.
pub proof fn lemma_tables_bytes_checksum(es: Seq<SfntDirectoryEntry>, tables: Map<u32, NamedTable>)
    requires
        forall|i: int| 0 <= i < es.len() - 1 ==> #[trigger] entry_bytes(tables, es[i]).len() % 4 == 0,
    ensures
        spec_checksum(tables_bytes(es, tables)) == words_sum(
            es.map_values(|e: SfntDirectoryEntry| table_contribution(tables, e)),
        ),
        (forall|i: int| 0 <= i < es.len() ==> #[trigger] entry_bytes(tables, es[i]).len() % 4 == 0)
            ==> tables_bytes(es, tables).len() % 4 == 0,
    decreases es.len(),
{
    let f = |e: SfntDirectoryEntry| table_contribution(tables, e);
    if es.len() == 0 {
        reveal_with_fuel(crate::utils::weighted_sum, 1);
    } else {
        let ed = es.drop_last();
        assert forall|i: int| 0 <= i < ed.len() - 1 implies #[trigger] entry_bytes(tables, ed[i]).len() % 4
            == 0 by {
            assert(ed[i] == es[i]);
        }
        lemma_tables_bytes_checksum(ed, tables);
        assert forall|i: int| 0 <= i < ed.len() implies #[trigger] entry_bytes(tables, ed[i]).len() % 4
            == 0 by {
            assert(ed[i] == es[i]);
        }
        assert(es.map_values(f).drop_last() =~= ed.map_values(f));
        let k = es.last().tag.spec_key();
        let prev = tables_bytes(ed, tables);
        let last = entry_bytes(tables, es.last());
        assert(tables_bytes(es, tables) == prev + last);
        lemma_checksum_concat(prev, last);
        if !tables.contains_key(k) {
            reveal_with_fuel(crate::utils::weighted_sum, 1);
        }
        if forall|i: int| 0 <= i < es.len() ==> #[trigger] entry_bytes(tables, es[i]).len() % 4 == 0 {
            assert(es.last() == es[es.len() - 1]);
            assert(entry_bytes(tables, es[es.len() - 1]).len() % 4 == 0);
        }
    }
}

/// Putting entries in a stable order by some keys keeps the wrapping sum
/// of what each entry maps to.
pub proof fn lemma_reorder_sum(
    es: Seq<SfntDirectoryEntry>,
    keys: Seq<u32>,
    f: spec_fn(SfntDirectoryEntry) -> u32,
)
    requires
        keys.len() == es.len(),
        es.len() <= usize::MAX + 1,
    ensures
        words_sum(reorder(es, keys).map_values(f)) == words_sum(es.map_values(f)),
        reorder(es, keys).len() == es.len(),
        forall|i: int|
            0 <= i < es.len() ==> exists|j: int|
                0 <= j < es.len() && #[trigger] reorder(es, keys)[i] == es[j],
{
    lemma_stable_order_exists(keys);
    let idx = stable_order(keys);
    lemma_stable_order_injective(keys, idx);
    let vals = es.map_values(f);
    assert(reorder(es, keys).map_values(f) =~= idx.map_values(|i: usize| vals[i as int]));
    lemma_words_sum_permutation(vals, idx);
    assert forall|i: int| 0 <= i < es.len() implies exists|j: int|
        0 <= j < es.len() && #[trigger] reorder(es, keys)[i] == es[j] by {
        assert(reorder(es, keys)[i] == es[idx[i] as int]);
    }
}

/// Each laid-out entry names a table of the font and records its checksum.
proof fn lemma_layout_entries_record(
    es: Seq<SfntDirectoryEntry>,
    tables: Map<u32, NamedTable>,
    start: int,
)
    ensures
        layout_entries(es, tables, start).len() <= es.len(),
        forall|i: int|
            0 <= i < layout_entries(es, tables, start).len() ==> {
                let e = #[trigger] layout_entries(es, tables, start)[i];
                &&& tables.contains_key(e.tag.spec_key())
                &&& e.checksum == tables[e.tag.spec_key()].checksum_spec()
            },
    decreases es.len(),
{
    if es.len() > 0 {
        lemma_layout_entries_record(es.drop_last(), tables, start);
    }
}

/// What the 'head' table adds beyond its checksum, for entries that name a
/// table of the font.
pub open spec fn head_term(tables: Map<u32, NamedTable>, adj: u32, e: SfntDirectoryEntry) -> u32 {
    if tables.contains_key(e.tag.spec_key()) && e.tag.spec_key() == head_key() {
        adj
    } else {
        0
    }
}

/// Laying out entries keeps what the 'head' table adds.
proof fn lemma_layout_head_terms(
    es: Seq<SfntDirectoryEntry>,
    tables: Map<u32, NamedTable>,
    start: int,
    adj: u32,
)
    ensures
        words_sum(
            layout_entries(es, tables, start).map_values(
                |e: SfntDirectoryEntry| head_term(tables, adj, e),
            ),
        ) == words_sum(es.map_values(|e: SfntDirectoryEntry| head_term(tables, adj, e))),
    decreases es.len(),
{
    let f = |e: SfntDirectoryEntry| head_term(tables, adj, e);
    if es.len() > 0 {
        lemma_layout_head_terms(es.drop_last(), tables, start, adj);
        let prev = layout_entries(es.drop_last(), tables, start);
        assert(es.map_values(f).drop_last() =~= es.drop_last().map_values(f));
        let k = es.last().tag.spec_key();
        if tables.contains_key(k) {
            let l = layout_entries(es, tables, start);
            assert(l.map_values(f).drop_last() =~= prev.map_values(f));
            assert(l.last().tag == es.last().tag);
        } else {
            lemma_add32_laws(words_sum(prev.map_values(f)), 0, 0);
            lemma_add32_laws(words_sum(es.drop_last().map_values(f)), 0, 0);
        }
    }
}

/// Words that are all zero but one sum to that one.
proof fn lemma_words_sum_single(s: Seq<u32>, i: int)
    requires
        0 <= i < s.len(),
        forall|j: int| 0 <= j < s.len() && j != i ==> s[j] == 0,
    ensures
        words_sum(s) == s[i],
{
    lemma_words_sum_remove(s, i);
    lemma_words_sum_zero(s.remove(i));
    lemma_add32_laws(s[i], 0, 0);
    lemma_add32_laws(0, s[i], 0);
}

/// Words that are all zero sum to zero.
proof fn lemma_words_sum_zero(s: Seq<u32>)
    requires
        forall|j: int| 0 <= j < s.len() ==> s[j] == 0,
    ensures
        words_sum(s) == 0,
    decreases s.len(),
{
    if s.len() > 0 {
        lemma_words_sum_zero(s.drop_last());
    }
}

/// The directory names each table at most once.
pub open spec fn tags_distinct(d: Seq<SfntDirectoryEntry>) -> bool {
    forall|i: int, j: int|
        0 <= i < j < d.len() ==> #[trigger] d[i].tag.spec_key() != #[trigger] d[j].tag.spec_key()
}

/// A font whose 'head' table writing can adjust: its directory names each
/// table once and names the 'head' table, which the font holds as a 'head'
/// table, and no other table is a 'head' table.
pub open spec fn head_ready(f: SfntFont) -> bool {
    let t = f.tables@;
    &&& tags_distinct(f.directory@)
    &&& has_tag(f.directory@, head_tag())
    &&& t.contains_key(head_key())
    &&& t[head_key()] is Head
    &&& forall|k: u32| t.contains_key(k) && k != head_key() ==> !(#[trigger] t[k] is Head)
}

/// The bytes of every table of the font fill whole words.
pub open spec fn tables_fill_words(f: SfntFont) -> bool {
    forall|k: u32| f.tables@.contains_key(k) ==> #[trigger] f.tables@[k].bytes_spec().len() % 4 == 0
}

/// Writing lays out the tables of the font within 32-bit offsets, and the
/// bytes of every table that it lays out but the last are as long as the
/// table's length rounded up to four: only the table written last, such as
/// a C2PA table, may end off a word.
pub open spec fn only_last_unaligned(f: SfntFont) -> bool {
    let t = f.tables@;
    let l = spec_laid_out(f);
    &&& layout_fits(spec_physical_order(f.directory@), t, spec_first_offset(f))
    &&& forall|i: int|
        #![trigger l[i]]
        0 <= i < l.len() - 1 && t.contains_key(l[i].tag.spec_key()) ==> t[l[i].tag.spec_key()].bytes_spec().len()
            == spec_align4(t[l[i].tag.spec_key()].len_spec() as int)
}

/// A font that writing keeps whole-font checksums right for: its 'head'
/// table can be adjusted, and either the bytes of every table fill whole
/// words, or every table that writing lays out but the last (a C2PA table,
/// named by the directory or not) has bytes as long as its length rounded
/// up to four, within 32-bit offsets.
pub open spec fn checksum_ready(f: SfntFont) -> bool {
    &&& head_ready(f)
    &&& tables_fill_words(f) || only_last_unaligned(f)
}

/// The checksum of the bytes that writing a font writes is that of its new
/// header and directory plus what each table that the directory names adds.
proof fn lemma_written_parts(f: SfntFont)
    requires
        checksum_ready(f),
    ensures
        ({
            let w = spec_written(f);
            spec_checksum(spec_written_bytes(f)) == add32(
                add32(w.0.spec_checksum(), entries_checksum(w.1)),
                words_sum(w.1.map_values(|e: SfntDirectoryEntry| table_contribution(w.2, e))),
            )
        }),
{
    let w = spec_written(f);
    let h = w.0;
    let d = w.1;
    let t2 = w.2;
    let t = f.tables@;
    let adj = spec_adjustment(spec_font_checksum(h, d));
    let hd = t[head_key()]->Head_0;
    let new_head = NamedTable::Head(TableHead { checksumAdjustment: adj, ..hd });
    assert(t2 == t.insert(head_key(), new_head));
    let hb = h.spec_bytes();
    let db = entries_bytes(d);
    let phys = spec_physical_order(d);
    let tb = tables_bytes(phys, t2);
    lemma_header_checksum_is_bytes_checksum(h);
    lemma_entries_checksum_is_bytes_checksum(d);
    if tables_fill_words(f) {
        assert forall|i: int| 0 <= i < phys.len() - 1 implies #[trigger] entry_bytes(t2, phys[i]).len() % 4
            == 0 by {
            let k = phys[i].tag.spec_key();
            if k == head_key() {
                lemma_head_words_checksum(TableHead { checksumAdjustment: adj, ..hd });
            } else if t2.contains_key(k) {
                assert(t.contains_key(k));
            }
        }
        lemma_tables_bytes_checksum(phys, t2);
    } else {
        lemma_written_tables_checksum_last(f);
    }
    lemma_checksum_concat(hb, db);
    lemma_checksum_concat(hb + db, tb);
    assert(spec_written_bytes(f) == hb + db + tb);
    lemma_laid_out_len(f);
    lemma_reorder_sum(
        spec_laid_out(f),
        tag_keys(spec_laid_out(f)),
        |e: SfntDirectoryEntry| table_contribution(t2, e),
    );
    lemma_reorder_sum(d, offset_keys(d), |e: SfntDirectoryEntry| table_contribution(t2, e));
}

/// Writing lays out at most one more entry than the directory has.
pub(crate) proof fn lemma_laid_out_len(f: SfntFont)
    ensures
        spec_laid_out(f).len() <= usize::MAX + 1,
{
    let t = f.tables@;
    lemma_directory_len(&f.directory);
    lemma_layout_entries_record(
        spec_physical_order(f.directory@),
        t,
        12 + 16 * (t.len() as u16),
    );
    lemma_reorder_sum(
        f.directory@,
        offset_keys(f.directory@),
        |e: SfntDirectoryEntry| e.checksum,
    );
}

/// What the laid-out tables add is the checksums that their entries
/// record, plus the 'head' table's adjustment.
proof fn lemma_laid_out_adds(f: SfntFont, adj: u32)
    requires
        head_ready(f),
    ensures
        ({
            let t2 = spec_adjusted_tables(f.tables@, adj);
            let laid = spec_laid_out(f);
            words_sum(laid.map_values(|e: SfntDirectoryEntry| table_contribution(t2, e))) == add32(
                words_sum(laid.map_values(|e: SfntDirectoryEntry| e.checksum)),
                adj,
            )
        }),
{
    let t = f.tables@;
    let t2 = spec_adjusted_tables(t, adj);
    let laid = spec_laid_out(f);
    let phys_old = spec_physical_order(f.directory@);
    let start = 12 + 16 * (t.len() as u16);
    let hd = t[head_key()]->Head_0;
    let new_head = NamedTable::Head(TableHead { checksumAdjustment: adj, ..hd });
    assert(t2 == t.insert(head_key(), new_head));
    let adds = |e: SfntDirectoryEntry| table_contribution(t2, e);
    let checksum_of = |e: SfntDirectoryEntry| e.checksum;
    let hterm = |e: SfntDirectoryEntry| head_term(t, adj, e);
    lemma_layout_entries_record(phys_old, t, start);
    assert forall|i: int| 0 <= i < laid.len() implies #[trigger] laid.map_values(adds)[i] == add32(
        laid.map_values(checksum_of)[i],
        laid.map_values(hterm)[i],
    ) by {
        let e = laid[i];
        let k = e.tag.spec_key();
        assert(t.contains_key(k) && e.checksum == t[k].checksum_spec()) by {
            let l = layout_entries(phys_old, t, start);
            if i < l.len() {
                assert(laid[i] == l[i]);
            } else {
                assert(k == c2pa_key());
            }
        }
        lemma_table_bytes_checksum(t2[k]);
        if k == head_key() {
            assert(t2[k] == new_head);
        } else {
            assert(t2[k] == t[k]);
            lemma_add32_laws(e.checksum, 0, 0);
        }
    }
    lemma_words_sum_pointwise(
        laid.map_values(checksum_of),
        laid.map_values(hterm),
        laid.map_values(adds),
    );
    lemma_head_once(f, adj);
}

/// The bytes that writing a font writes sum to the checksum that the
/// OpenType specification expects of a whole font, 0xB1B0AFBA, when its
/// directory names each table once and names the 'head' table, which the
/// font holds as a 'head' table, no other table is a 'head' table, and
/// either the bytes of every table fill whole words or every table that
/// writing lays out but the last is as long as its length rounded up to four
/// within 32-bit offsets, so that a C2PA table of any length may go last,
/// whether the directory names it or not.
#[verifier::spinoff_prover]
pub proof fn law_written_font_checksum(f: SfntFont)
    requires
        checksum_ready(f),
    ensures
        spec_checksum(spec_written_bytes(f)) == SFNT_EXPECTED_CHECKSUM,
{
    lemma_written_parts(f);
    lemma_adjusted_sum(f);
}

/// The new header and directory that writing a font makes, and what each
/// of its tables adds, sum to the expected checksum.
#[verifier::spinoff_prover]
#[verifier::rlimit(50)]
proof fn lemma_adjusted_sum(f: SfntFont)
    requires
        head_ready(f),
    ensures
        ({
            let w = spec_written(f);
            add32(
                add32(w.0.spec_checksum(), entries_checksum(w.1)),
                words_sum(w.1.map_values(|e: SfntDirectoryEntry| table_contribution(w.2, e))),
            ) == SFNT_EXPECTED_CHECKSUM
        }),
{
    let w = spec_written(f);
    let h = w.0;
    let d = w.1;
    let t2 = w.2;
    let laid = spec_laid_out(f);
    let fc = spec_font_checksum(h, d);
    let adj = spec_adjustment(fc);
    assert(t2 == spec_adjusted_tables(f.tables@, adj));
    lemma_laid_out_adds(f, adj);
    lemma_laid_out_len(f);
    lemma_reorder_sum(laid, tag_keys(laid), |e: SfntDirectoryEntry| table_contribution(t2, e));
    lemma_reorder_sum(laid, tag_keys(laid), |e: SfntDirectoryEntry| e.checksum);
    let r = words_sum(laid.map_values(|e: SfntDirectoryEntry| e.checksum));
    assert(recorded_checksums(d) == r);
    let hc = add32(h.spec_checksum(), entries_checksum(d));
    assert(fc == add32(hc, r));
    lemma_adjustment_completes(fc);
    lemma_add32_laws(hc, r, adj);
}

/// A font checksum plus its adjustment is the expected checksum.
proof fn lemma_adjustment_completes(fc: u32)
    ensures
        add32(fc, spec_adjustment(fc)) == SFNT_EXPECTED_CHECKSUM,
{
    let m = 0x1_0000_0000int;
    let e = SFNT_EXPECTED_CHECKSUM as int;
    let a = (e - fc) % m;
    assert(0 <= a < m);
    assert((fc + a) % m == e) by (nonlinear_arith)
        requires
            a == (e - fc) % m,
            m == 0x1_0000_0000int,
            0 <= fc < m,
            0 <= e < m,
    ;
}

/// Among the entries that writing a font lays out, the 'head' table's adds
/// its adjustment once.
proof fn lemma_head_once(f: SfntFont, adj: u32)
    requires
        head_ready(f),
    ensures
        words_sum(spec_laid_out(f).map_values(|e: SfntDirectoryEntry| head_term(f.tables@, adj, e)))
            == adj,
{
    let t = f.tables@;
    let hterm = |e: SfntDirectoryEntry| head_term(t, adj, e);
    let start = 12 + 16 * (t.len() as u16);
    let phys_old = spec_physical_order(f.directory@);
    let l = layout_entries(phys_old, t, start);
    lemma_directory_len(&f.directory);
    lemma_layout_head_terms(phys_old, t, start, adj);
    lemma_reorder_sum(f.directory@, offset_keys(f.directory@), hterm);
    let dm = f.directory@.map_values(hterm);
    let i = choose|i: int| 0 <= i < f.directory@.len() && #[trigger] f.directory@[i].tag@ == head_tag()@;
    lemma_key_injective(f.directory@[i].tag, head_tag());
    assert forall|j: int| 0 <= j < dm.len() && j != i implies dm[j] == 0 by {
        if f.directory@[j].tag.spec_key() == head_key() {
            if j < i {
                assert(f.directory@[j].tag.spec_key() != f.directory@[i].tag.spec_key());
            } else {
                assert(f.directory@[i].tag.spec_key() != f.directory@[j].tag.spec_key());
            }
        }
    }
    lemma_words_sum_single(dm, i);
    if spec_laid_out(f) != l {
        let c = spec_laid_out(f);
        assert(c.drop_last() =~= l);
        assert(c.last().tag.spec_key() == c2pa_key());
        assert(c2pa_key() != head_key()) by {
            lemma_key_injective(crate::tag::c2pa_tag(), head_tag());
        }
        assert(c.map_values(hterm).drop_last() =~= l.map_values(hterm));
        lemma_add32_laws(words_sum(l.map_values(hterm)), 0, 0);
    }
}

} // verus!
