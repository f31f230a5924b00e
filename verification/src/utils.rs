//! Checksums and alignment for SFNT data.

use crate::byte_order::{be_u32, u16_bytes, u32_bytes, lemma_u16_roundtrip, lemma_u32_roundtrip};
use crate::io::zeros;
use vstd::arithmetic::div_mod::{lemma_add_mod_noop, lemma_mod_bound};
use vstd::prelude::*;
use vstd::utf8::{decode_utf8, valid_utf8};

verus! {

/// The weight of the byte at index `i` in a big-endian 32-bit word sum: the
/// first byte of each word is its most significant.
pub open spec fn byte_weight(i: int) -> int {
    let r = i % 4;
    if r == 0 {
        0x1000000
    } else if r == 1 {
        0x10000
    } else if r == 2 {
        0x100
    } else {
        1
    }
}

/// The sum of the bytes of `s`, each weighted by its place in a big-endian
/// 32-bit word, when `s` starts at index `start` of the word grid.
pub open spec fn weighted_sum(s: Seq<u8>, start: int) -> int
    decreases s.len(),
{
    if s.len() == 0 {
        0
    } else {
        weighted_sum(s.drop_last(), start) + s.last() as int * byte_weight(start + s.len() - 1)
    }
}

/// The OpenType checksum of `s`: the sum, modulo 2^32, of its big-endian
/// 32-bit words, the last one padded with zero bytes.
pub open spec fn spec_checksum(s: Seq<u8>) -> u32 {
    (weighted_sum(s, 0) % 0x1_0000_0000) as u32
}

/// `(a + b) mod 2^32`.
pub open spec fn add32(a: u32, b: u32) -> u32 {
    ((a as int + b as int) % 0x1_0000_0000) as u32
}

/// `value` rounded up to a multiple of four.
pub open spec fn spec_align4(value: int) -> int {
    ((value + 3) / 4) * 4
}

proof fn lemma_byte_weight_period(i: int, j: int)
    requires
        i % 4 == j % 4,
    ensures
        byte_weight(i) == byte_weight(j),
{
}

/// Shifting the start of a byte string by a multiple of four leaves its
/// weighted sum unchanged.
pub proof fn lemma_weighted_sum_shift(s: Seq<u8>, start: int, other: int)
    requires
        start % 4 == other % 4,
    ensures
        weighted_sum(s, start) == weighted_sum(s, other),
    decreases s.len(),
{
    if s.len() > 0 {
        lemma_weighted_sum_shift(s.drop_last(), start, other);
        let k = s.len() - 1;
        assert((start + k) % 4 == (other + k) % 4) by {
            vstd::arithmetic::div_mod::lemma_add_mod_noop(start, k, 4);
            vstd::arithmetic::div_mod::lemma_add_mod_noop(other, k, 4);
        }
        lemma_byte_weight_period(start + k, other + k);
    }
}

/// The weighted sum of a concatenation is the sum of the parts, the second
/// starting where the first ends.
pub proof fn lemma_weighted_sum_concat(a: Seq<u8>, b: Seq<u8>, start: int)
    ensures
        weighted_sum(a + b, start) == weighted_sum(a, start) + weighted_sum(b, start + a.len()),
    decreases b.len(),
{
    if b.len() == 0 {
        assert(a + b =~= a);
    } else {
        lemma_weighted_sum_concat(a, b.drop_last(), start);
        assert((a + b).drop_last() =~= a + b.drop_last());
    }
}

/// Zero bytes add nothing to a weighted sum.
pub proof fn lemma_weighted_sum_zeros(n: nat, start: int)
    ensures
        weighted_sum(zeros(n), start) == 0,
    decreases n,
{
    if n > 0 {
        assert(zeros(n).drop_last() =~= zeros((n - 1) as nat));
        lemma_weighted_sum_zeros((n - 1) as nat, start);
    }
}

/// The checksum of a concatenation whose first part fills whole words is
/// the wrapping sum of the checksums of the parts.
pub proof fn lemma_checksum_concat(a: Seq<u8>, b: Seq<u8>)
    requires
        a.len() % 4 == 0,
    ensures
        spec_checksum(a + b) == add32(spec_checksum(a), spec_checksum(b)),
{
    lemma_weighted_sum_concat(a, b, 0);
    lemma_weighted_sum_shift(b, a.len() as int, 0);
    lemma_weighted_sum_nonneg(a, 0);
    lemma_weighted_sum_nonneg(b, 0);
    let x = weighted_sum(a, 0);
    let y = weighted_sum(b, 0);
    let m = 0x1_0000_0000int;
    lemma_add_mod_noop(x, y, m);
}

/// The checksum of a concatenation is the wrapping sum of the checksum of
/// the first part and that of the second part shifted to where the first
/// part ends within a word.
pub proof fn lemma_checksum_concat_biased(a: Seq<u8>, b: Seq<u8>)
    ensures
        spec_checksum(a + b) == add32(
            spec_checksum(a),
            spec_checksum(zeros((a.len() % 4) as nat) + b),
        ),
{
    let k = (a.len() % 4) as nat;
    lemma_weighted_sum_concat(a, b, 0);
    lemma_weighted_sum_shift(b, a.len() as int, k as int);
    lemma_weighted_sum_concat(zeros(k), b, 0);
    lemma_weighted_sum_zeros(k, 0);
    lemma_weighted_sum_nonneg(a, 0);
    lemma_weighted_sum_nonneg(b, k as int);
    let x = weighted_sum(a, 0);
    let y = weighted_sum(b, k as int);
    let m = 0x1_0000_0000int;
    lemma_add_mod_noop(x, y, m);
}

/// Weighted sums are never negative.
pub proof fn lemma_weighted_sum_nonneg(s: Seq<u8>, start: int)
    ensures
        weighted_sum(s, start) >= 0,
    decreases s.len(),
{
    if s.len() > 0 {
        lemma_weighted_sum_nonneg(s.drop_last(), start);
    }
}

/// Trailing zero bytes do not change a checksum.
pub proof fn lemma_checksum_zero_padding(s: Seq<u8>, n: nat)
    ensures
        spec_checksum(s + zeros(n)) == spec_checksum(s),
{
    lemma_weighted_sum_concat(s, zeros(n), 0);
    lemma_weighted_sum_zeros(n, s.len() as int);
}

/// The checksum of the four bytes of a `u32` is that `u32`.
pub proof fn lemma_checksum_u32(v: u32)
    ensures
        spec_checksum(u32_bytes(v)) == v,
{
    let s = u32_bytes(v);
    lemma_u32_roundtrip(v, seq![0u8, 0u8, 0u8, 0u8]);
    reveal_with_fuel(weighted_sum, 5);
    assert(s.drop_last().drop_last().drop_last().drop_last() =~= Seq::<u8>::empty());
    assert(weighted_sum(s, 0) == be_u32(s));
}

/// The checksum of two big-endian `u16`s is the word that they make.
pub proof fn lemma_checksum_u16_pair(hi: u16, lo: u16)
    ensures
        spec_checksum(u16_bytes(hi) + u16_bytes(lo)) == hi as int * 0x10000 + lo as int,
{
    let s = u16_bytes(hi) + u16_bytes(lo);
    lemma_u16_roundtrip(hi, seq![0u8, 0u8]);
    lemma_u16_roundtrip(lo, seq![0u8, 0u8]);
    reveal_with_fuel(weighted_sum, 5);
    assert(s.drop_last().drop_last().drop_last().drop_last() =~= Seq::<u8>::empty());
    assert(s.drop_last().drop_last().drop_last() =~= seq![s[0]]);
    assert(s.drop_last().drop_last() =~= seq![s[0], s[1]]);
    assert(s.drop_last() =~= seq![s[0], s[1], s[2]]);
    let w = weighted_sum(s, 0);
    assert(w == s[0] as int * 0x1000000 + s[1] as int * 0x10000 + s[2] as int * 0x100 + s[3] as int);
    assert(s[0] as int * 256 + s[1] as int == hi);
    assert(s[2] as int * 256 + s[3] as int == lo);
    assert(w == hi as int * 0x10000 + lo as int);
}

/// The bytes of a sequence of words, each big-endian.
pub open spec fn words_bytes(ws: Seq<u32>) -> Seq<u8>
    decreases ws.len(),
{
    if ws.len() == 0 {
        Seq::empty()
    } else {
        words_bytes(ws.drop_last()) + u32_bytes(ws.last())
    }
}

/// The wrapping sum of a sequence of words, from the first.
pub open spec fn words_sum(ws: Seq<u32>) -> u32
    decreases ws.len(),
{
    if ws.len() == 0 {
        0
    } else {
        add32(words_sum(ws.drop_last()), ws.last())
    }
}

/// The checksum of the bytes of words is the wrapping sum of the words.
pub proof fn lemma_checksum_words(ws: Seq<u32>)
    ensures
        spec_checksum(words_bytes(ws)) == words_sum(ws),
        words_bytes(ws).len() == 4 * ws.len(),
    decreases ws.len(),
{
    if ws.len() == 0 {
        reveal_with_fuel(weighted_sum, 1);
    } else {
        lemma_checksum_words(ws.drop_last());
        lemma_u32_roundtrip(ws.last(), seq![0u8, 0u8, 0u8, 0u8]);
        lemma_checksum_concat(words_bytes(ws.drop_last()), u32_bytes(ws.last()));
        lemma_checksum_u32(ws.last());
    }
}

/// The four bytes at `4 * i` of the bytes of some words are those of the
/// word at `i`.
pub proof fn lemma_words_bytes_at(ws: Seq<u32>, i: int)
    requires
        0 <= i < ws.len(),
    ensures
        words_bytes(ws).subrange(4 * i, 4 * i + 4) == u32_bytes(ws[i]),
        words_bytes(ws).len() == 4 * ws.len(),
    decreases ws.len(),
{
    lemma_checksum_words(ws);
    lemma_checksum_words(ws.drop_last());
    lemma_u32_roundtrip(ws.last(), seq![0u8, 0u8, 0u8, 0u8]);
    let front = words_bytes(ws.drop_last());
    if i == ws.len() - 1 {
        assert(words_bytes(ws).subrange(4 * i, 4 * i + 4) =~= u32_bytes(ws[i]));
    } else {
        lemma_words_bytes_at(ws.drop_last(), i);
        assert(words_bytes(ws).subrange(4 * i, 4 * i + 4) =~= front.subrange(4 * i, 4 * i + 4));
    }
}

/// Sums words with wrapping, from the first.
pub fn sum_words(ws: &Vec<u32>) -> (r: u32)
    ensures
        r == words_sum(ws@),
{
    let mut sum: u32 = 0;
    let mut i: usize = 0;
    while i < ws.len()
        invariant
            i <= ws@.len(),
            sum == words_sum(ws@.take(i as int)),
        decreases ws@.len() - i,
    {
        proof {
            assert(ws@.take(i as int + 1).drop_last() =~= ws@.take(i as int));
        }
        sum = sum.wrapping_add(ws[i]);
        i = i + 1;
    }
    assert(ws@.take(ws@.len() as int) =~= ws@);
    sum
}

/// Appends the bytes of words, each big-endian.
pub fn push_words(buf: &mut Vec<u8>, ws: &Vec<u32>)
    ensures
        final(buf)@ == old(buf)@ + words_bytes(ws@),
{
    let mut i: usize = 0;
    while i < ws.len()
        invariant
            i <= ws@.len(),
            buf@ == old(buf)@ + words_bytes(ws@.take(i as int)),
        decreases ws@.len() - i,
    {
        proof {
            assert(ws@.take(i as int + 1).drop_last() =~= ws@.take(i as int));
        }
        crate::byte_order::push_u32_be(buf, ws[i]);
        proof {
            assert(old(buf)@ + words_bytes(ws@.take(i as int + 1)) =~= old(buf)@ + words_bytes(
                ws@.take(i as int),
            ) + u32_bytes(ws@[i as int]));
        }
        i = i + 1;
    }
    assert(ws@.take(ws@.len() as int) =~= ws@);
}

/// Rounds `size` up to the next multiple of four.
pub fn align_to_four(size: u32) -> (r: u32)
    requires
        size <= u32::MAX - 3,
    ensures
        r == spec_align4(size as int),
{
    let t = size + 3;
    let r = t & !3u32;
    assert(t & !3u32 == (t / 4) * 4) by (bit_vector);
    r
}

/// Sums `bytes` as big-endian 32-bit words, the first byte standing at
/// index `start` of a word.
fn word_sum(bytes: &[u8], start: u32) -> (r: u32)
    requires
        start < 4,
    ensures
        r == (weighted_sum(bytes@, start as int) % 0x1_0000_0000) as u32,
{
    let mut acc: u32 = 0;
    let mut phase: u32 = start;
    let mut i: usize = 0;
    while i < bytes.len()
        invariant
            i <= bytes@.len(),
            start < 4,
            phase < 4,
            phase as int == (start + i) % 4,
            acc as int == weighted_sum(bytes@.take(i as int), start as int) % 0x1_0000_0000,
        decreases bytes.len() - i,
    {
        let w: u32 = if phase == 0 {
            0x1000000
        } else if phase == 1 {
            0x10000
        } else if phase == 2 {
            0x100
        } else {
            1
        };
        let term: u32 = bytes[i] as u32 * w;
        proof {
            let t = bytes@.take(i as int + 1);
            assert(t.drop_last() =~= bytes@.take(i as int));
            assert(t.last() == bytes@[i as int]);
            assert(w == byte_weight(start + i));
            lemma_weighted_sum_nonneg(bytes@.take(i as int), start as int);
            lemma_add_mod_noop(
                weighted_sum(bytes@.take(i as int), start as int),
                term as int,
                0x1_0000_0000int,
            );
            lemma_mod_bound(term as int, 0x1_0000_0000int);
        }
        acc = acc.wrapping_add(term);
        phase = if phase == 3 {
            0
        } else {
            phase + 1
        };
        i = i + 1;
    }
    assert(bytes@.take(bytes@.len() as int) =~= bytes@);
    acc
}

/// Computes the 32-bit big-endian OpenType checksum of `bytes`, which is
/// taken to start on a four-byte boundary. Trailing pad bytes do not affect
/// it.
pub fn checksum(bytes: &[u8]) -> (r: u32)
    ensures
        r == spec_checksum(bytes@),
{
    word_sum(bytes, 0)
}

/// Computes the checksum of `bytes` when they start `bias % 4` bytes into a
/// 32-bit word: the checksum of `bytes` preceded by that many zero bytes.
pub fn checksum_biased(bytes: &[u8], bias: u32) -> (r: u32)
    ensures
        r == spec_checksum(zeros((bias % 4) as nat) + bytes@),
{
    proof {
        let z = zeros((bias % 4) as nat);
        lemma_weighted_sum_concat(z, bytes@, 0);
        lemma_weighted_sum_zeros((bias % 4) as nat, 0);
    }
    word_sum(bytes, bias % 4)
}

/// Calls `String::from_utf8`: the text that the bytes encode when they are
/// valid UTF-8, else the bytes back. The claim is that validity is vstd's
/// `valid_utf8` and the text its `decode_utf8`.
#[verifier::external_body]
pub(crate) fn string_from_utf8(bytes: Vec<u8>) -> (r: Result<String, Vec<u8>>)
    ensures
        match r {
            Ok(s) => valid_utf8(bytes@) && s@ == decode_utf8(bytes@),
            Err(b) => !valid_utf8(bytes@) && b@ == bytes@,
        },
{
    match String::from_utf8(bytes) {
        Ok(s) => Ok(s),
        Err(e) => Err(e.into_bytes()),
    }
}

/// Adds two words, wrapping around at 2^32.
pub fn wrapping_add32(a: u32, b: u32) -> (r: u32)
    ensures
        r == add32(a, b),
{
    a.wrapping_add(b)
}

/// Assembles two halfwords into a word, `hi` in the more significant half.
pub fn u32_from_u16_pair(hi: u16, lo: u16) -> (r: u32)
    ensures
        r == hi as int * 0x10000 + lo as int,
{
    hi as u32 * 65536 + lo as u32
}

/// Wrapping addition is commutative and associative, and 0 is its unit.
pub proof fn lemma_add32_laws(a: u32, b: u32, c: u32)
    ensures
        add32(a, b) == add32(b, a),
        add32(add32(a, b), c) == add32(a, add32(b, c)),
        add32(a, 0) == a,
{
    let m = 0x1_0000_0000int;
    lemma_add_mod_noop(a as int + b as int, c as int, m);
    lemma_add_mod_noop(a as int, b as int + c as int, m);
    vstd::arithmetic::div_mod::lemma_mod_twice(a as int + b as int, m);
    vstd::arithmetic::div_mod::lemma_mod_twice(b as int + c as int, m);
    lemma_add_mod_noop(a as int, (b as int + c as int) % m, m);
    lemma_add_mod_noop((a as int + b as int) % m, c as int, m);
    vstd::arithmetic::div_mod::lemma_small_mod(a as nat, m as nat);
    vstd::arithmetic::div_mod::lemma_small_mod(b as nat, m as nat);
    vstd::arithmetic::div_mod::lemma_small_mod(c as nat, m as nat);
    assert(((a as int + b as int) % m + c as int) % m == (a as int + (b as int + c as int) % m)
        % m);
}

/// The wrapping sum of words is that of the words without the one at `p`,
/// plus that word.
pub proof fn lemma_words_sum_remove(s: Seq<u32>, p: int)
    requires
        0 <= p < s.len(),
    ensures
        words_sum(s) == add32(words_sum(s.remove(p)), s[p]),
    decreases s.len(),
{
    if p == s.len() - 1 {
        assert(s.remove(p) =~= s.drop_last());
    } else {
        lemma_words_sum_remove(s.drop_last(), p);
        assert(s.remove(p).drop_last() =~= s.drop_last().remove(p));
        assert(s.remove(p).last() == s.last());
        let w = words_sum(s.drop_last().remove(p));
        lemma_add32_laws(w, s[p], s.last());
        lemma_add32_laws(w, s.last(), s[p]);
        lemma_add32_laws(s[p], s.last(), 0);
    }
}

/// The wrapping sum of two lists of words, one after the other, is the sum
/// of their sums.
pub proof fn lemma_words_sum_concat(a: Seq<u32>, b: Seq<u32>)
    ensures
        words_sum(a + b) == add32(words_sum(a), words_sum(b)),
    decreases b.len(),
{
    if b.len() == 0 {
        assert(a + b =~= a);
        lemma_add32_laws(words_sum(a), 0, 0);
    } else {
        lemma_words_sum_concat(a, b.drop_last());
        assert((a + b).drop_last() =~= a + b.drop_last());
        lemma_add32_laws(words_sum(a), words_sum(b.drop_last()), b.last());
    }
}

/// The wrapping sum of pointwise sums is the sum of the two sums.
pub proof fn lemma_words_sum_pointwise(a: Seq<u32>, b: Seq<u32>, c: Seq<u32>)
    requires
        a.len() == b.len(),
        c.len() == a.len(),
        forall|i: int| 0 <= i < c.len() ==> #[trigger] c[i] == add32(a[i], b[i]),
    ensures
        words_sum(c) == add32(words_sum(a), words_sum(b)),
    decreases c.len(),
{
    if c.len() > 0 {
        lemma_words_sum_pointwise(a.drop_last(), b.drop_last(), c.drop_last());
        let x = words_sum(a.drop_last());
        let y = words_sum(b.drop_last());
        lemma_add32_laws(add32(x, y), a.last(), b.last());
        lemma_add32_laws(x, y, a.last());
        lemma_add32_laws(y, a.last(), 0);
        lemma_add32_laws(x, a.last(), y);
        lemma_add32_laws(add32(x, a.last()), y, b.last());
    } else {
        lemma_add32_laws(0, 0, 0);
    }
}

/// Listing words in another order, each once, keeps their wrapping sum.
pub proof fn lemma_words_sum_permutation(vals: Seq<u32>, idx: Seq<usize>)
    requires
        idx.len() == vals.len(),
        vals.len() <= usize::MAX + 1,
        forall|i: int| 0 <= i < idx.len() ==> #[trigger] idx[i] < vals.len(),
        forall|i: int, j: int| 0 <= i < j < idx.len() ==> #[trigger] idx[i] != #[trigger] idx[j],
    ensures
        words_sum(idx.map_values(|i: usize| vals[i as int])) == words_sum(vals),
    decreases vals.len(),
{
    let n = vals.len();
    if n > 0 {
        let m = (n - 1) as usize;
        lemma_injective_covers(idx, n);
        assert(idx.contains(m));
        let p = choose|p: int| 0 <= p < idx.len() && idx[p] == m;
        let idx2 = idx.remove(p);
        let vals2 = vals.drop_last();
        assert forall|i: int| 0 <= i < idx2.len() implies #[trigger] idx2[i] < vals2.len() by {
            if i < p {
                assert(idx2[i] == idx[i]);
                assert(idx[i] != idx[p]);
            } else {
                assert(idx2[i] == idx[i + 1]);
                assert(idx[i + 1] != idx[p]);
            }
        }
        assert forall|i: int, j: int| 0 <= i < j < idx2.len() implies #[trigger] idx2[i]
            != #[trigger] idx2[j] by {
            let i1 = if i < p {
                i
            } else {
                i + 1
            };
            let j1 = if j < p {
                j
            } else {
                j + 1
            };
            assert(idx2[i] == idx[i1]);
            assert(idx2[j] == idx[j1]);
        }
        lemma_words_sum_permutation(vals2, idx2);
        let mapped = idx.map_values(|i: usize| vals[i as int]);
        lemma_words_sum_remove(mapped, p);
        assert(mapped.remove(p) =~= idx2.map_values(|i: usize| vals2[i as int]));
        assert(mapped[p] == vals[n - 1]);
        assert(vals.drop_last() == vals2);
    }
}

/// An injective list of `n` indices below `n` holds every index below `n`.
proof fn lemma_injective_covers(idx: Seq<usize>, n: nat)
    requires
        idx.len() == n,
        n <= usize::MAX + 1,
        forall|i: int| 0 <= i < idx.len() ==> #[trigger] idx[i] < n,
        forall|i: int, j: int| 0 <= i < j < idx.len() ==> #[trigger] idx[i] != #[trigger] idx[j],
    ensures
        forall|k: usize| (k as int) < n ==> #[trigger] idx.contains(k),
{
    let s = idx.to_set();
    assert forall|a: int, b: int| 0 <= a < idx.len() && 0 <= b < idx.len() && idx[a] == idx[b]
        implies a == b by {
        if a < b {
            assert(idx[a] != idx[b]);
        } else if b < a {
            assert(idx[b] != idx[a]);
        }
    }
    idx.unique_seq_to_set();
    let full = Set::new(|k: usize| k < n);
    lemma_usize_range_len(n);
    assert(s.subset_of(full));
    vstd::set_lib::lemma_int_range(0, n as int);
    assert forall|k: usize| (k as int) < n implies #[trigger] idx.contains(k) by {
        if !idx.contains(k) {
            let smaller = full.remove(k);
            assert(full.contains(k));
            assert(smaller.len() == n - 1);
            assert(s.subset_of(smaller));
            vstd::set_lib::lemma_len_subset(s, smaller);
        }
    }
}

/// The set of indices below `n` has `n` elements.
proof fn lemma_usize_range_len(n: nat)
    requires
        n <= usize::MAX + 1,
    ensures
        Set::new(|k: usize| k < n).len() == n,
        Set::new(|k: usize| k < n).finite(),
    decreases n,
{
    if n == 0 {
        assert(Set::new(|k: usize| k < n) =~= Set::<usize>::empty());
    } else {
        lemma_usize_range_len((n - 1) as nat);
        assert(Set::new(|k: usize| k < n) =~= Set::new(|k: usize| k < (n - 1) as nat).insert(
            (n - 1) as usize,
        ));
    }
}

} // verus!
