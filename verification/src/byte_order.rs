//! Big-endian integers in byte streams.
//!
//! Decoding and encoding go through the `byteorder` crate; the spec functions
//! here say what the bytes of a big-endian integer are.

use crate::io::{Cursor, IoErrorKind, StreamState};
use byteorder::{BigEndian, ByteOrder};
use vstd::prelude::*;

verus! {

/// The value of the first two bytes of `s`, most significant first.
pub open spec fn be_u16(s: Seq<u8>) -> u16 {
    (s[0] as int * 256 + s[1] as int) as u16
}

/// The value of the first four bytes of `s`, most significant first.
pub open spec fn be_u32(s: Seq<u8>) -> u32 {
    (s[0] as int * 0x1000000 + s[1] as int * 0x10000 + s[2] as int * 0x100 + s[3] as int) as u32
}

/// The value of the first eight bytes of `s`, most significant first.
pub open spec fn be_u64(s: Seq<u8>) -> u64 {
    (be_u32(s) as int * 0x1_0000_0000 + be_u32(s.subrange(4, 8)) as int) as u64
}

/// The value of the two bytes of `s` at `i`, most significant first.
pub open spec fn be16_at(s: Seq<u8>, i: int) -> u16 {
    be_u16(s.subrange(i, i + 2))
}

/// The value of the four bytes of `s` at `i`, most significant first.
pub open spec fn be32_at(s: Seq<u8>, i: int) -> u32 {
    be_u32(s.subrange(i, i + 4))
}

/// The value of the eight bytes of `s` at `i`, most significant first.
pub open spec fn be64_at(s: Seq<u8>, i: int) -> u64 {
    be_u64(s.subrange(i, i + 8))
}

/// The two bytes of `v`, most significant first.
pub open spec fn u16_bytes(v: u16) -> Seq<u8> {
    seq![(v / 256) as u8, (v % 256) as u8]
}

/// The four bytes of `v`, most significant first.
pub open spec fn u32_bytes(v: u32) -> Seq<u8> {
    seq![
        (v / 0x1000000) as u8,
        ((v / 0x10000) % 256) as u8,
        ((v / 0x100) % 256) as u8,
        (v % 256) as u8,
    ]
}

/// The eight bytes of `v`, most significant first.
pub open spec fn u64_bytes(v: u64) -> Seq<u8> {
    u32_bytes((v / 0x1_0000_0000) as u32) + u32_bytes((v % 0x1_0000_0000) as u32)
}

/// Decoding the bytes of a `u16` gives it back, and the bytes of the value of
/// two bytes are those bytes.
pub proof fn lemma_u16_roundtrip(v: u16, s: Seq<u8>)
    requires
        s.len() == 2,
    ensures
        be_u16(u16_bytes(v)) == v,
        u16_bytes(be_u16(s)) =~= s,
        u16_bytes(v).len() == 2,
{
    let a = (v / 256) as u8;
    let b = (v % 256) as u8;
    assert(a as int * 256 + b as int == v) by (nonlinear_arith)
        requires
            a == v / 256,
            b == v % 256,
            v < 0x10000,
    ;
    let w = s[0] as int * 256 + s[1] as int;
    assert(0 <= w < 0x10000);
    assert(w / 256 == s[0] as int && w % 256 == s[1] as int) by (nonlinear_arith)
        requires
            w == s[0] as int * 256 + s[1] as int,
            0 <= s[0] < 256,
            0 <= s[1] < 256,
    ;
}

/// Decoding the bytes of a `u32` gives it back, and the bytes of the value of
/// four bytes are those bytes.
pub proof fn lemma_u32_roundtrip(v: u32, s: Seq<u8>)
    requires
        s.len() == 4,
    ensures
        be_u32(u32_bytes(v)) == v,
        u32_bytes(be_u32(s)) =~= s,
        u32_bytes(v).len() == 4,
{
    let b0 = v / 0x1000000;
    let b1 = (v / 0x10000) % 256;
    let b2 = (v / 0x100) % 256;
    let b3 = v % 256;
    assert(b0 * 0x1000000 + b1 * 0x10000 + b2 * 0x100 + b3 == v) by (bit_vector)
        requires
            b0 == v / 0x1000000,
            b1 == (v / 0x10000) % 256,
            b2 == (v / 0x100) % 256,
            b3 == v % 256,
    ;
    assert(b0 < 256) by (bit_vector)
        requires
            b0 == v / 0x1000000,
    ;
    let x0 = s[0] as u32;
    let x1 = s[1] as u32;
    let x2 = s[2] as u32;
    let x3 = s[3] as u32;
    let w = x0 * 0x1000000 + x1 * 0x10000 + x2 * 0x100 + x3;
    assert(w < 0x1_0000_0000);
    let wu = w as u32;
    assert(wu / 0x1000000 == x0 && (wu / 0x10000) % 256 == x1 && (wu / 0x100) % 256 == x2 && wu
        % 256 == x3) by (bit_vector)
        requires
            x0 < 256,
            x1 < 256,
            x2 < 256,
            x3 < 256,
            wu == x0 * 0x1000000 + x1 * 0x10000 + x2 * 0x100 + x3,
    ;
}

/// Decoding the bytes of a `u64` gives it back, and the bytes of the value of
/// eight bytes are those bytes.
pub proof fn lemma_u64_roundtrip(v: u64, s: Seq<u8>)
    requires
        s.len() == 8,
    ensures
        be_u64(u64_bytes(v)) == v,
        u64_bytes(be_u64(s)) =~= s,
        u64_bytes(v).len() == 8,
{
    let hi = (v / 0x1_0000_0000) as u32;
    let lo = (v % 0x1_0000_0000) as u32;
    lemma_u32_roundtrip(hi, s.take(4));
    lemma_u32_roundtrip(lo, s.subrange(4, 8));
    let bs = u64_bytes(v);
    assert(bs.take(4) =~= u32_bytes(hi));
    assert(bs.subrange(4, 8) =~= u32_bytes(lo));
    assert(be_u32(bs) == be_u32(bs.take(4)));
    assert(hi as int * 0x1_0000_0000 + lo as int == v) by (nonlinear_arith)
        requires
            hi == v / 0x1_0000_0000,
            lo == v % 0x1_0000_0000,
    ;
    let h = be_u32(s);
    let l = be_u32(s.subrange(4, 8));
    assert(be_u32(s) == be_u32(s.take(4)));
    let w = h as int * 0x1_0000_0000 + l as int;
    assert(0 <= w < 0x1_0000_0000_0000_0000) by (nonlinear_arith)
        requires
            w == h as int * 0x1_0000_0000 + l as int,
            h < 0x1_0000_0000,
            l < 0x1_0000_0000,
    ;
    assert(w / 0x1_0000_0000 == h && w % 0x1_0000_0000 == l) by (nonlinear_arith)
        requires
            w == h as int * 0x1_0000_0000 + l as int,
            0 <= h < 0x1_0000_0000,
            0 <= l < 0x1_0000_0000,
    ;
    assert(s =~= s.take(4) + s.subrange(4, 8));
}

/// The four bytes of a word made of two halfwords are the bytes of the
/// halfwords.
pub proof fn lemma_u32_bytes_of_pair(hi: u16, lo: u16)
    ensures
        u32_bytes((hi as int * 0x10000 + lo as int) as u32) == u16_bytes(hi) + u16_bytes(lo),
{
    let s = u16_bytes(hi) + u16_bytes(lo);
    lemma_u16_roundtrip(hi, seq![0u8, 0u8]);
    lemma_u16_roundtrip(lo, seq![0u8, 0u8]);
    assert(s[0] as int * 256 + s[1] as int == hi);
    assert(s[2] as int * 256 + s[3] as int == lo);
    assert(be_u32(s) == hi as int * 0x10000 + lo as int);
    lemma_u32_roundtrip(0, s);
}

/// The eight bytes of a 64-bit value are the bytes of its high word and then
/// of its low word, for a signed value taken as its two's complement bits.
pub proof fn lemma_u64_bytes_of_i64(x: i64)
    ensures
        u64_bytes(x as u64) == u32_bytes((x >> 32u64) as u32) + u32_bytes(x as u32),
{
    let v = x as u64;
    assert((v / 0x1_0000_0000) as u32 == (x >> 32u64) as u32) by (bit_vector)
        requires
            v == x as u64,
    ;
    assert((v % 0x1_0000_0000) as u32 == x as u32) by (bit_vector)
        requires
            v == x as u64,
    ;
}

/// The value of the two bytes of `buf` at `i`, most significant first.
pub fn u16_at(buf: &[u8], i: usize) -> (r: u16)
    requires
        i + 2 <= buf@.len(),
    ensures
        r == be_u16(buf@.subrange(i as int, i + 2)),
{
    let _len = buf.len();
    decode_u16(&buf[i..i + 2])
}

/// The value of the four bytes of `buf` at `i`, most significant first.
pub fn u32_at(buf: &[u8], i: usize) -> (r: u32)
    requires
        i + 4 <= buf@.len(),
    ensures
        r == be_u32(buf@.subrange(i as int, i + 4)),
{
    let _len = buf.len();
    decode_u32(&buf[i..i + 4])
}

/// The value of the eight bytes of `buf` at `i`, most significant first.
pub fn u64_at(buf: &[u8], i: usize) -> (r: u64)
    requires
        i + 8 <= buf@.len(),
    ensures
        r == be_u64(buf@.subrange(i as int, i + 8)),
{
    let _len = buf.len();
    let sub = &buf[i..i + 8];
    assert(sub@.subrange(4, 8) =~= buf@.subrange(i as int, i + 8).subrange(4, 8));
    decode_u64(sub)
}

/// Decodes a big-endian `u16` from the first two bytes of `buf` with
/// `byteorder::BigEndian::read_u16`, which reads those bytes and panics on
/// fewer.
#[verifier::external_body]
fn decode_u16(buf: &[u8]) -> (r: u16)
    requires
        buf@.len() >= 2,
    ensures
        r == be_u16(buf@),
{
    BigEndian::read_u16(buf)
}

/// Decodes a big-endian `u32` from the first four bytes of `buf` with
/// `byteorder::BigEndian::read_u32`, which reads those bytes and panics on
/// fewer.
#[verifier::external_body]
fn decode_u32(buf: &[u8]) -> (r: u32)
    requires
        buf@.len() >= 4,
    ensures
        r == be_u32(buf@),
{
    BigEndian::read_u32(buf)
}

/// Decodes a big-endian `u64` from the first eight bytes of `buf` with
/// `byteorder::BigEndian::read_u64`, which reads those bytes and panics on
/// fewer.
#[verifier::external_body]
fn decode_u64(buf: &[u8]) -> (r: u64)
    requires
        buf@.len() >= 8,
    ensures
        r == be_u64(buf@),
{
    BigEndian::read_u64(buf)
}

/// The bytes of `n`, most significant first, as
/// `byteorder::BigEndian::write_u16` stores them into a two-byte buffer.
#[verifier::external_body]
fn encode_u16(n: u16) -> (r: Vec<u8>)
    ensures
        r@ == u16_bytes(n),
{
    let mut buf = vec![0u8; 2];
    BigEndian::write_u16(&mut buf, n);
    buf
}

/// The bytes of `n`, most significant first, as
/// `byteorder::BigEndian::write_u32` stores them into a four-byte buffer.
#[verifier::external_body]
fn encode_u32(n: u32) -> (r: Vec<u8>)
    ensures
        r@ == u32_bytes(n),
{
    let mut buf = vec![0u8; 4];
    BigEndian::write_u32(&mut buf, n);
    buf
}

/// The bytes of `n`, most significant first, as
/// `byteorder::BigEndian::write_u64` stores them into an eight-byte buffer.
#[verifier::external_body]
fn encode_u64(n: u64) -> (r: Vec<u8>)
    ensures
        r@ == u64_bytes(n),
{
    let mut buf = vec![0u8; 8];
    BigEndian::write_u64(&mut buf, n);
    buf
}

/// Appends the two bytes of `n`, most significant first.
pub fn push_u16_be(buf: &mut Vec<u8>, n: u16)
    ensures
        final(buf)@ == old(buf)@ + u16_bytes(n),
{
    let mut bytes = encode_u16(n);
    buf.append(&mut bytes);
}

/// Appends the four bytes of `n`, most significant first.
pub fn push_u32_be(buf: &mut Vec<u8>, n: u32)
    ensures
        final(buf)@ == old(buf)@ + u32_bytes(n),
{
    let mut bytes = encode_u32(n);
    buf.append(&mut bytes);
}

/// Appends the eight bytes of `n`, most significant first.
pub fn push_u64_be(buf: &mut Vec<u8>, n: u64)
    ensures
        final(buf)@ == old(buf)@ + u64_bytes(n),
{
    let mut bytes = encode_u64(n);
    buf.append(&mut bytes);
}

impl Cursor {
    /// Reads a big-endian `u16`.
    pub fn read_u16_be(&mut self) -> (r: Result<u16, IoErrorKind>)
        ensures
            match r {
                Ok(v) => {
                    &&& 2 <= old(self)@.remaining().len()
                    &&& v == be_u16(old(self)@.remaining())
                    &&& final(self)@ == old(self)@.at(old(self)@.pos + 2)
                },
                Err(e) => {
                    &&& e == IoErrorKind::UnexpectedEof
                    &&& old(self)@.remaining().len() < 2
                    &&& final(self)@ == old(self)@.at(old(self)@.data.len() as int)
                },
            },
    {
        let bytes = self.read_exact(2)?;
        Ok(decode_u16(bytes.as_slice()))
    }

    /// Reads a big-endian `u32`.
    pub fn read_u32_be(&mut self) -> (r: Result<u32, IoErrorKind>)
        ensures
            match r {
                Ok(v) => {
                    &&& 4 <= old(self)@.remaining().len()
                    &&& v == be_u32(old(self)@.remaining())
                    &&& final(self)@ == old(self)@.at(old(self)@.pos + 4)
                },
                Err(e) => {
                    &&& e == IoErrorKind::UnexpectedEof
                    &&& old(self)@.remaining().len() < 4
                    &&& final(self)@ == old(self)@.at(old(self)@.data.len() as int)
                },
            },
    {
        let bytes = self.read_exact(4)?;
        Ok(decode_u32(bytes.as_slice()))
    }

    /// Reads a big-endian `u64`.
    pub fn read_u64_be(&mut self) -> (r: Result<u64, IoErrorKind>)
        ensures
            match r {
                Ok(v) => {
                    &&& 8 <= old(self)@.remaining().len()
                    &&& v == be_u64(old(self)@.remaining())
                    &&& final(self)@ == old(self)@.at(old(self)@.pos + 8)
                },
                Err(e) => {
                    &&& e == IoErrorKind::UnexpectedEof
                    &&& old(self)@.remaining().len() < 8
                    &&& final(self)@ == old(self)@.at(old(self)@.data.len() as int)
                },
            },
    {
        let bytes = self.read_exact(8)?;
        proof {
            assert(bytes@.subrange(4, 8) =~= old(self)@.remaining().subrange(4, 8));
        }
        Ok(decode_u64(bytes.as_slice()))
    }

    /// Writes `n` as two big-endian bytes.
    pub fn write_u16_be(&mut self, n: u16) -> (r: Result<(), IoErrorKind>)
        ensures
            final(self)@ == old(self)@.after_write(u16_bytes(n)),
            r is Ok <==> old(self)@.write_ok(u16_bytes(n)),
            r matches Err(e) ==> e == IoErrorKind::WriteZero,
    {
        let bytes = encode_u16(n);
        self.write_all(bytes.as_slice())
    }

    /// Writes `n` as four big-endian bytes.
    pub fn write_u32_be(&mut self, n: u32) -> (r: Result<(), IoErrorKind>)
        ensures
            final(self)@ == old(self)@.after_write(u32_bytes(n)),
            r is Ok <==> old(self)@.write_ok(u32_bytes(n)),
            r matches Err(e) ==> e == IoErrorKind::WriteZero,
    {
        let bytes = encode_u32(n);
        self.write_all(bytes.as_slice())
    }

    /// Writes `n` as eight big-endian bytes.
    pub fn write_u64_be(&mut self, n: u64) -> (r: Result<(), IoErrorKind>)
        ensures
            final(self)@ == old(self)@.after_write(u64_bytes(n)),
            r is Ok <==> old(self)@.write_ok(u64_bytes(n)),
            r matches Err(e) ==> e == IoErrorKind::WriteZero,
    {
        let bytes = encode_u64(n);
        self.write_all(bytes.as_slice())
    }
}

} // verus!
