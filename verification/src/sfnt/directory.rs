//! SFNT font file directory and entries.

use crate::byte_order::{be_u32, push_u32_be, u32_bytes, lemma_u32_roundtrip};
use crate::error::FontIoError;
use crate::io::{lemma_remaining_advance, Cursor, IoErrorKind};
use crate::sort::{stable_order, stable_order_of};
use crate::tag::FontTag;
use crate::utils::{add32, lemma_checksum_concat, lemma_checksum_u32, spec_checksum, wrapping_add32};
use crate::{
    FontDataChecksum, FontDataExactRead, FontDataRead, FontDataWrite, FontDirectory,
    FontDirectoryEntry,
};
use vstd::prelude::*;

verus! {

broadcast use crate::io::lemma_cursor_wf;

/// SFNT table directory entry, from the OpenType spec.
#[derive(Debug, Clone, Copy)]
pub struct SfntDirectoryEntry {
    /// The tag of the table.
    pub tag: FontTag,
    /// The checksum of the table.
    pub checksum: u32,
    /// The offset of the table from the start of the font.
    pub offset: u32,
    /// The length of the table.
    pub length: u32,
}

impl SfntDirectoryEntry {
    /// The size of an SFNT directory entry.
    pub const SIZE: usize = 16;

    /// The bytes of the entry: the tag, then the checksum, offset and length
    /// as big-endian words.
    pub open spec fn spec_bytes(self) -> Seq<u8> {
        self.tag@ + u32_bytes(self.checksum) + u32_bytes(self.offset) + u32_bytes(self.length)
    }

    /// The checksum of the entry: the wrapping sum of its four words.
    pub open spec fn spec_checksum(self) -> u32 {
        add32(add32(add32(self.tag.spec_key(), self.checksum), self.offset), self.length)
    }

    /// The entry is the one that the bytes `s` start with.
    pub open spec fn parsed_from(self, s: Seq<u8>) -> bool {
        &&& s.len() >= 16
        &&& self.tag@ == s.take(4)
        &&& self.checksum == be_u32(s.subrange(4, 8))
        &&& self.offset == be_u32(s.subrange(8, 12))
        &&& self.length == be_u32(s.subrange(12, 16))
    }

    /// The tag of the table.
    pub fn tag(&self) -> (r: FontTag)
        ensures
            r == self.tag,
    {
        self.tag
    }

    /// The offset of the table.
    pub fn offset(&self) -> (r: u32)
        ensures
            r == self.offset,
    {
        self.offset
    }

    /// The length of the table.
    pub fn length(&self) -> (r: u32)
        ensures
            r == self.length,
    {
        self.length
    }

    /// Appends the bytes of the entry to `buf`.
    fn push_bytes(&self, buf: &mut Vec<u8>)
        ensures
            final(buf)@ == old(buf)@ + self.spec_bytes(),
    {
        let ghost start = buf@;
        buf.push(self.tag.data[0]);
        buf.push(self.tag.data[1]);
        buf.push(self.tag.data[2]);
        buf.push(self.tag.data[3]);
        assert(buf@ =~= start + self.tag@);
        push_u32_be(buf, self.checksum);
        push_u32_be(buf, self.offset);
        push_u32_be(buf, self.length);
        assert(buf@ =~= start + self.spec_bytes());
    }
}

/// Every entry's checksum is the checksum of its bytes, which are sixteen.
pub proof fn lemma_entry_checksum_is_bytes_checksum(e: SfntDirectoryEntry)
    ensures
        e.spec_checksum() == spec_checksum(e.spec_bytes()),
        e.spec_bytes().len() == 16,
{
    let t = e.tag@;
    let a = u32_bytes(e.checksum);
    let b = u32_bytes(e.offset);
    let c = u32_bytes(e.length);
    lemma_u32_roundtrip(e.checksum, t);
    lemma_u32_roundtrip(e.offset, t);
    lemma_u32_roundtrip(e.length, t);
    lemma_u32_roundtrip(0, t);
    assert(u32_bytes(be_u32(t)) =~= t);
    lemma_checksum_u32(be_u32(t));
    lemma_checksum_u32(e.checksum);
    lemma_checksum_u32(e.offset);
    lemma_checksum_u32(e.length);
    lemma_checksum_concat(t, a);
    lemma_checksum_concat(t + a, b);
    lemma_checksum_concat(t + a + b, c);
}

/// Reading the bytes of an entry, whatever follows them, gives the entry
/// back.
pub proof fn law_entry_roundtrip(e: SfntDirectoryEntry, rest: Seq<u8>)
    ensures
        e.parsed_from(e.spec_bytes() + rest),
{
    let s = e.spec_bytes() + rest;
    lemma_u32_roundtrip(e.checksum, e.tag@);
    lemma_u32_roundtrip(e.offset, e.tag@);
    lemma_u32_roundtrip(e.length, e.tag@);
    assert(s.take(4) =~= e.tag@);
    assert(s.subrange(4, 8) =~= u32_bytes(e.checksum));
    assert(s.subrange(8, 12) =~= u32_bytes(e.offset));
    assert(s.subrange(12, 16) =~= u32_bytes(e.length));
}

/// The sixteen bytes of an entry hold, as OpenType lays them out, the tag
/// at offset 0, then big-endian the checksum at 4, the offset at 8 and the
/// length at 12.
pub proof fn law_entry_fields_at(e: SfntDirectoryEntry)
    ensures
        e.spec_bytes().len() == 16,
        e.spec_bytes().take(4) == e.tag@,
        be_u32(e.spec_bytes().subrange(4, 8)) == e.checksum,
        be_u32(e.spec_bytes().subrange(8, 12)) == e.offset,
        be_u32(e.spec_bytes().subrange(12, 16)) == e.length,
{
    law_entry_roundtrip(e, Seq::empty());
    assert(e.spec_bytes() + Seq::<u8>::empty() =~= e.spec_bytes());
}

impl FontDataRead for SfntDirectoryEntry {
    type Error = FontIoError;

    /// Reads an entry: tag, checksum, offset and length.
    fn from_reader(reader: &mut Cursor) -> (r: Result<Self, FontIoError>)
        ensures
            match r {
                Ok(e) => {
                    &&& e.parsed_from(old(reader)@.remaining())
                    &&& final(reader)@ == old(reader)@.at(old(reader)@.pos + 16)
                },
                Err(e) => {
                    &&& e == FontIoError::IoError(IoErrorKind::UnexpectedEof)
                    &&& old(reader)@.remaining().len() < 16
                },
            },
    {
        let ghost s = old(reader)@;
        let tag = FontTag::from_reader(reader)?;
        proof {
            lemma_remaining_advance(s, 4);
        }
        let ghost s1 = reader@;
        let checksum = match reader.read_u32_be() {
            Ok(v) => v,
            Err(e) => return Err(FontIoError::IoError(e)),
        };
        proof {
            lemma_remaining_advance(s1, 4);
        }
        let ghost s2 = reader@;
        let offset = match reader.read_u32_be() {
            Ok(v) => v,
            Err(e) => return Err(FontIoError::IoError(e)),
        };
        proof {
            lemma_remaining_advance(s2, 4);
        }
        let length = match reader.read_u32_be() {
            Ok(v) => v,
            Err(e) => return Err(FontIoError::IoError(e)),
        };
        let e = Self { tag, checksum, offset, length };
        proof {
            let r = s.remaining();
            assert(be_u32(r.subrange(4, 8)) == checksum);
            assert(be_u32(r.subrange(8, 12)) == offset);
            assert(be_u32(r.subrange(12, 16)) == length);
        }
        Ok(e)
    }
}

impl FontDataExactRead for SfntDirectoryEntry {
    type Error = FontIoError;

    /// Reads an entry at `offset`; `size` must be that of an entry.
    fn from_reader_exact(reader: &mut Cursor, offset: usize, size: usize) -> (r: Result<
        Self,
        FontIoError,
    >)
        ensures
            size != 16 ==> r == Err::<SfntDirectoryEntry, FontIoError>(
                FontIoError::InvalidSizeForDirectoryEntry { expected: 16, got: size },
            ),
            size == 16 ==> match r {
                Ok(e) => e.parsed_from(old(reader)@.at(offset as int).remaining()),
                Err(e) => {
                    &&& e == FontIoError::IoError(IoErrorKind::UnexpectedEof)
                    &&& old(reader)@.at(offset as int).remaining().len() < 16
                },
            },
    {
        if size != Self::SIZE {
            return Err(FontIoError::InvalidSizeForDirectoryEntry { expected: Self::SIZE, got: size });
        }
        reader.set_position(offset);
        Self::from_reader(reader)
    }
}

impl FontDataWrite for SfntDirectoryEntry {
    type Error = FontIoError;

    open spec fn bytes_spec(&self) -> Seq<u8> {
        self.spec_bytes()
    }

    /// Writes the entry.
    fn write(&self, dest: &mut Cursor) -> (r: Result<(), FontIoError>)
        ensures
            r matches Err(e) ==> e == FontIoError::IoError(IoErrorKind::WriteZero),
    {
        let mut buf: Vec<u8> = Vec::new();
        self.push_bytes(&mut buf);
        assert(buf@ =~= self.spec_bytes());
        match dest.write_all(buf.as_slice()) {
            Ok(()) => Ok(()),
            Err(e) => Err(FontIoError::IoError(e)),
        }
    }
}

impl FontDataChecksum for SfntDirectoryEntry {
    open spec fn checksum_spec(&self) -> u32 {
        self.spec_checksum()
    }

    /// The wrapping sum of the entry's four words.
    fn checksum(&self) -> (r: u32) {
        let s1 = self.tag.key().wrapping_add(self.checksum);
        assert(s1 == add32(self.tag.spec_key(), self.checksum));
        let s2 = s1.wrapping_add(self.offset);
        assert(s2 == add32(s1, self.offset));
        let s3 = s2.wrapping_add(self.length);
        assert(s3 == add32(s2, self.length));
        s3
    }
}

impl FontDirectoryEntry for SfntDirectoryEntry {

}

/// The bytes of a sequence of entries, one after the other.
pub open spec fn entries_bytes(es: Seq<SfntDirectoryEntry>) -> Seq<u8>
    decreases es.len(),
{
    if es.len() == 0 {
        Seq::empty()
    } else {
        entries_bytes(es.drop_last()) + es.last().spec_bytes()
    }
}

/// The wrapping sum of the checksums of a sequence of entries.
pub open spec fn entries_checksum(es: Seq<SfntDirectoryEntry>) -> u32
    decreases es.len(),
{
    if es.len() == 0 {
        0
    } else {
        add32(entries_checksum(es.drop_last()), es.last().spec_checksum())
    }
}

/// The entries are those that the bytes `s` start with, one every sixteen
/// bytes.
pub open spec fn entries_parsed_from(es: Seq<SfntDirectoryEntry>, s: Seq<u8>) -> bool {
    &&& 16 * es.len() <= s.len()
    &&& forall|i: int|
        0 <= i < es.len() ==> #[trigger] es[i].parsed_from(s.subrange(16 * i, s.len() as int))
}

/// The offsets of a sequence of entries.
pub open spec fn offset_keys(es: Seq<SfntDirectoryEntry>) -> Seq<u32> {
    es.map_values(|e: SfntDirectoryEntry| e.offset)
}

/// The tags of a sequence of entries, as the numbers that order them.
pub open spec fn tag_keys(es: Seq<SfntDirectoryEntry>) -> Seq<u32> {
    es.map_values(|e: SfntDirectoryEntry| e.tag.spec_key())
}

/// The entries in their stable order by `keys`.
pub open spec fn reorder(es: Seq<SfntDirectoryEntry>, keys: Seq<u32>) -> Seq<SfntDirectoryEntry> {
    stable_order(keys).map_values(|i: usize| es[i as int])
}

/// The entries by increasing offset, entries of equal offsets in their
/// original order.
pub open spec fn spec_physical_order(es: Seq<SfntDirectoryEntry>) -> Seq<SfntDirectoryEntry> {
    reorder(es, offset_keys(es))
}

/// The entries by increasing tag, entries of equal tags in their original
/// order.
pub open spec fn spec_tag_order(es: Seq<SfntDirectoryEntry>) -> Seq<SfntDirectoryEntry> {
    reorder(es, tag_keys(es))
}

/// The bytes of entries number sixteen each, and their checksum is the
/// checksum of their bytes.
pub proof fn lemma_entries_checksum_is_bytes_checksum(es: Seq<SfntDirectoryEntry>)
    ensures
        entries_bytes(es).len() == 16 * es.len(),
        entries_checksum(es) == spec_checksum(entries_bytes(es)),
    decreases es.len(),
{
    if es.len() > 0 {
        lemma_entries_checksum_is_bytes_checksum(es.drop_last());
        lemma_entry_checksum_is_bytes_checksum(es.last());
        lemma_checksum_concat(entries_bytes(es.drop_last()), es.last().spec_bytes());
    }
}

/// SFNT directory: the table directory entries in file order.
#[derive(Debug)]
pub struct SfntDirectory {
    entries: Vec<SfntDirectoryEntry>,
}

impl View for SfntDirectory {
    type V = Seq<SfntDirectoryEntry>;

    closed spec fn view(&self) -> Seq<SfntDirectoryEntry> {
        self.entries@
    }
}

/// A directory has at most as many entries as a `usize` counts.
pub proof fn lemma_directory_len(d: &SfntDirectory)
    ensures
        d@.len() <= usize::MAX,
{
    vstd::std_specs::vec::axiom_spec_len(&d.entries);
}

impl SfntDirectory {
    /// Creates an empty directory.
    pub fn new() -> (r: Self)
        ensures
            r@ == Seq::<SfntDirectoryEntry>::empty(),
    {
        Self { entries: Vec::new() }
    }

    /// Creates a directory with the given entries.
    pub fn from_entries(entries: Vec<SfntDirectoryEntry>) -> (r: Self)
        ensures
            r@ == entries@,
    {
        Self { entries }
    }

    /// Adds an entry at the end of the directory.
    pub fn add_entry(&mut self, entry: SfntDirectoryEntry)
        ensures
            final(self)@ == old(self)@.push(entry),
    {
        self.entries.push(entry);
    }

    /// Sorts the entries by tag, keeping entries of equal tags in order.
    pub fn sort_entries(&mut self)
        ensures
            final(self)@ == spec_tag_order(old(self)@),
    {
        let n = self.entries.len();
        let mut keys: Vec<u32> = Vec::with_capacity(n);
        let mut i: usize = 0;
        while i < n
            invariant
                i <= n,
                n == self.entries@.len(),
                keys@.len() == i,
                forall|k: int| 0 <= k < i ==> #[trigger] keys@[k] == self.entries@[k].tag.spec_key(),
            decreases n - i,
        {
            keys.push(self.entries[i].tag.key());
            i = i + 1;
        }
        assert(keys@ =~= tag_keys(self.entries@));
        let order = stable_order_of(&keys);
        let mut sorted: Vec<SfntDirectoryEntry> = Vec::with_capacity(n);
        let mut j: usize = 0;
        while j < n
            invariant
                j <= n,
                n == self.entries@.len(),
                order@.len() == n,
                forall|q: int| 0 <= q < n ==> #[trigger] order@[q] < n,
                sorted@.len() == j,
                forall|q: int|
                    0 <= q < j ==> #[trigger] sorted@[q] == self.entries@[order@[q] as int],
            decreases n - j,
        {
            sorted.push(self.entries[order[j]]);
            j = j + 1;
        }
        let ghost before = self.entries@;
        self.entries = sorted;
        assert(self.entries@ =~= reorder(before, tag_keys(before)));
    }
}

impl FontDataRead for SfntDirectory {
    type Error = FontIoError;

    /// Reads entries until fewer bytes than an entry are left.
    fn from_reader(reader: &mut Cursor) -> (r: Result<Self, FontIoError>)
        ensures
            match r {
                Ok(d) => {
                    &&& d@.len() == old(reader)@.remaining().len() / 16
                    &&& entries_parsed_from(d@, old(reader)@.remaining())
                },
                Err(_) => false,
            },
    {
        let ghost s = old(reader)@;
        let mut entries: Vec<SfntDirectoryEntry> = Vec::new();
        loop
            invariant_except_break
                s.wf(),
                reader@.data == s.data,
                reader@.pos == s.pos + 16 * entries@.len() || (s.remaining().len() < 16 * (
                entries@.len() + 1) && reader@.pos == s.data.len()),
                16 * entries@.len() <= s.remaining().len(),
                entries_parsed_from(entries@, s.remaining()),
                reader@.pos == s.pos + 16 * entries@.len() ==> reader@.remaining()
                    == s.remaining().subrange(16 * entries@.len() as int, s.remaining().len() as int),
            ensures
                entries@.len() == s.remaining().len() / 16,
                entries_parsed_from(entries@, s.remaining()),
            decreases s.remaining().len() - 16 * entries@.len(),
        {
            let ghost before = reader@;
            let ghost k = entries@.len() as int;
            let ghost before_entries = entries@;
            match SfntDirectoryEntry::from_reader(reader) {
                Ok(entry) => {
                    proof {
                        lemma_remaining_advance(before, 16);
                        assert(entry.parsed_from(s.remaining().subrange(16 * k, s.remaining().len() as int)));
                    }
                    entries.push(entry);
                    proof {
                        assert forall|i: int| 0 <= i < entries@.len() implies #[trigger] entries@[i].parsed_from(
                            s.remaining().subrange(16 * i, s.remaining().len() as int),
                        ) by {
                            if i < k {
                                assert(entries@[i] == before_entries[i]);
                            }
                        }
                        let rem = s.remaining();
                        assert(rem.subrange(16 * k, rem.len() as int).subrange(16, rem.len() - 16 * k) =~= rem.subrange(16 * (k + 1), rem.len() as int));
                    }
                },
                Err(_) => {
                    break ;
                },
            }
        }
        Ok(Self { entries })
    }
}

impl FontDataExactRead for SfntDirectory {
    type Error = FontIoError;

    /// Reads the `size / 16` entries that start at `offset`; `size` must be a
    /// whole number of entries, and the stream must hold `size` bytes there.
    fn from_reader_exact(reader: &mut Cursor, offset: usize, size: usize) -> (r: Result<
        Self,
        FontIoError,
    >)
        ensures
            size % 16 != 0 ==> r == Err::<SfntDirectory, FontIoError>(
                FontIoError::InvalidSizeForDirectory(size),
            ),
            size % 16 == 0 && old(reader)@.at(offset as int).remaining().len() < size ==> r
                == Err::<SfntDirectory, FontIoError>(FontIoError::IoError(IoErrorKind::UnexpectedEof)),
            size % 16 == 0 && old(reader)@.at(offset as int).remaining().len() >= size ==> (r matches Ok(
                d,
            ) && d@.len() == size / 16 && entries_parsed_from(
                d@,
                old(reader)@.at(offset as int).remaining().take(size as int),
            )),
    {
        if size % 16 != 0 {
            return Err(FontIoError::InvalidSizeForDirectory(size));
        }
        reader.set_position(offset);
        let ghost s = reader@;
        let r = Self::from_reader_with_count(reader, size / 16);
        proof {
            if r is Ok {
                lemma_entries_parsed_prefix(r->Ok_0@, s.remaining(), size as int);
            }
        }
        r
    }
}

/// Entries parsed from some bytes are parsed from any prefix of them that
/// holds the entries.
pub proof fn lemma_entries_parsed_prefix(es: Seq<SfntDirectoryEntry>, s: Seq<u8>, n: int)
    requires
        entries_parsed_from(es, s),
        16 * es.len() <= n <= s.len(),
    ensures
        entries_parsed_from(es, s.take(n)),
{
    let t = s.take(n);
    assert forall|i: int| 0 <= i < es.len() implies #[trigger] es[i].parsed_from(
        t.subrange(16 * i, t.len() as int),
    ) by {
        let a = s.subrange(16 * i, s.len() as int);
        let b = t.subrange(16 * i, t.len() as int);
        assert(es[i].parsed_from(a));
        assert(a.take(4) =~= b.take(4));
        assert(a.subrange(4, 8) =~= b.subrange(4, 8));
        assert(a.subrange(8, 12) =~= b.subrange(8, 12));
        assert(a.subrange(12, 16) =~= b.subrange(12, 16));
    }
}

impl FontDataWrite for SfntDirectory {
    type Error = FontIoError;

    open spec fn bytes_spec(&self) -> Seq<u8> {
        entries_bytes(self@)
    }

    /// Writes the entries in order.
    fn write(&self, dest: &mut Cursor) -> (r: Result<(), FontIoError>)
        ensures
            r matches Err(e) ==> e == FontIoError::IoError(IoErrorKind::WriteZero),
    {
        let mut buf: Vec<u8> = Vec::new();
        let mut i: usize = 0;
        while i < self.entries.len()
            invariant
                i <= self.entries@.len(),
                buf@ == entries_bytes(self.entries@.take(i as int)),
            decreases self.entries@.len() - i,
        {
            let ghost before = buf@;
            self.entries[i].push_bytes(&mut buf);
            proof {
                let t = self.entries@.take(i as int + 1);
                assert(t.drop_last() =~= self.entries@.take(i as int));
            }
            i = i + 1;
        }
        assert(self.entries@.take(self.entries@.len() as int) =~= self.entries@);
        match dest.write_all(buf.as_slice()) {
            Ok(()) => Ok(()),
            Err(e) => Err(FontIoError::IoError(e)),
        }
    }
}

impl FontDataChecksum for SfntDirectory {
    open spec fn checksum_spec(&self) -> u32 {
        entries_checksum(self@)
    }

    /// The wrapping sum of the entries' checksums.
    fn checksum(&self) -> (r: u32) {
        let mut sum: u32 = 0;
        let mut i: usize = 0;
        while i < self.entries.len()
            invariant
                i <= self.entries@.len(),
                sum == entries_checksum(self.entries@.take(i as int)),
            decreases self.entries@.len() - i,
        {
            proof {
                let t = self.entries@.take(i as int + 1);
                assert(t.drop_last() =~= self.entries@.take(i as int));
            }
            sum = wrapping_add32(sum, self.entries[i].checksum());
            i = i + 1;
        }
        assert(self.entries@.take(self.entries@.len() as int) =~= self.entries@);
        sum
    }
}

impl FontDirectory for SfntDirectory {
    type Entry = SfntDirectoryEntry;

    /// Reads exactly `entry_count` entries.
    fn from_reader_with_count(reader: &mut Cursor, entry_count: usize) -> (r: Result<
        Self,
        FontIoError,
    >)
        ensures
            r matches Ok(d) ==> {
                &&& d@.len() == entry_count
                &&& entries_parsed_from(d@, old(reader)@.remaining())
                &&& final(reader)@ == old(reader)@.at(old(reader)@.pos + 16 * entry_count)
            },
            r matches Err(e) ==> e == FontIoError::IoError(IoErrorKind::UnexpectedEof),
            r is Err ==> old(reader)@.remaining().len() < 16 * entry_count,
    {
        let ghost s = old(reader)@;
        let mut entries: Vec<SfntDirectoryEntry> = Vec::new();
        let mut i: usize = 0;
        while i < entry_count
            invariant
                i <= entry_count,
                entries@.len() == i,
                s == old(reader)@,
                s.wf(),
                reader@ == s.at(s.pos + 16 * i),
                16 * i <= s.remaining().len(),
                entries_parsed_from(entries@, s.remaining()),
                reader@.remaining() == s.remaining().subrange(16 * i, s.remaining().len() as int),
            decreases entry_count - i,
        {
            let ghost before = reader@;
            let ghost before_entries = entries@;
            let entry = match SfntDirectoryEntry::from_reader(reader) {
                Ok(e) => e,
                Err(e) => {
                    proof {
                        assert(before.remaining().len() == s.remaining().len() - 16 * i);
                        assert(s.remaining().len() < 16 * entry_count) by (nonlinear_arith)
                            requires
                                s.remaining().len() - 16 * i < 16,
                                i < entry_count,
                        ;
                    }
                    return Err(e);
                },
            };
            proof {
                lemma_remaining_advance(before, 16);
            }
            entries.push(entry);
            proof {
                assert forall|k: int| 0 <= k < entries@.len() implies #[trigger] entries@[k].parsed_from(
                    s.remaining().subrange(16 * k, s.remaining().len() as int),
                ) by {
                    if k < i {
                        assert(entries@[k] == before_entries[k]);
                    }
                }
                let rem = s.remaining();
                assert(rem.subrange(16 * i, rem.len() as int).subrange(16, rem.len() - 16 * i)
                    =~= rem.subrange(16 * (i + 1), rem.len() as int));
            }
            i = i + 1;
        }
        Ok(Self { entries })
    }

    /// The entries of the directory.
    fn entries(&self) -> (r: &[SfntDirectoryEntry])
        ensures
            r@ == self@,
    {
        self.entries.as_slice()
    }

    /// The entries by increasing offset, entries of equal offsets in their
    /// original order.
    fn physical_order(&self) -> (r: Vec<&SfntDirectoryEntry>)
        ensures
            r@.len() == self@.len(),
            spec_physical_order(self@).len() == self@.len(),
            forall|i: int| 0 <= i < r@.len() ==> *r@[i] == spec_physical_order(self@)[i],
    {
        let n = self.entries.len();
        let mut keys: Vec<u32> = Vec::with_capacity(n);
        let mut i: usize = 0;
        while i < n
            invariant
                i <= n,
                n == self.entries@.len(),
                keys@.len() == i,
                forall|k: int| 0 <= k < i ==> #[trigger] keys@[k] == self.entries@[k].offset,
            decreases n - i,
        {
            keys.push(self.entries[i].offset);
            i = i + 1;
        }
        assert(keys@ =~= offset_keys(self.entries@));
        let order = stable_order_of(&keys);
        let mut out: Vec<&SfntDirectoryEntry> = Vec::with_capacity(n);
        let mut j: usize = 0;
        while j < n
            invariant
                j <= n,
                n == self.entries@.len(),
                order@.len() == n,
                order@ == stable_order(offset_keys(self.entries@)),
                forall|q: int| 0 <= q < n ==> #[trigger] order@[q] < n,
                out@.len() == j,
                forall|q: int| 0 <= q < j ==> *#[trigger] out@[q] == self.entries@[order@[q] as int],
            decreases n - j,
        {
            out.push(&self.entries[order[j]]);
            j = j + 1;
        }
        out
    }
}

} // verus!
