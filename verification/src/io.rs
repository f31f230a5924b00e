//! In-memory byte streams that the font readers and writers work on.
//!
//! A [`Cursor`] holds a byte buffer and a position, like a seekable file held
//! in memory. A growable cursor extends its buffer when written past the end;
//! a fixed cursor writes as much as fits and then reports `WriteZero`.

use vstd::prelude::*;

verus! {

/// The ways in which reading or writing a stream can fail.
#[derive(Debug, Clone, Copy, PartialEq, Eq, Structural)]
pub enum IoErrorKind {
    /// A read asked for more bytes than the stream had left.
    UnexpectedEof,
    /// A write could not place all of its bytes.
    WriteZero,
}

impl IoErrorKind {
    /// The message that describes this failure.
    pub open spec fn spec_message(&self) -> Seq<char> {
        match self {
            IoErrorKind::UnexpectedEof => "failed to fill whole buffer"@,
            IoErrorKind::WriteZero => "failed to write whole buffer"@,
        }
    }

    /// The message that describes this failure.
    pub fn message(&self) -> (r: &'static str)
        ensures
            r@ == self.spec_message(),
    {
        match self {
            IoErrorKind::UnexpectedEof => "failed to fill whole buffer",
            IoErrorKind::WriteZero => "failed to write whole buffer",
        }
    }
}

/// A sequence of `n` zero bytes.
pub open spec fn zeros(n: nat) -> Seq<u8> {
    Seq::new(n, |i: int| 0u8)
}

/// The abstract state of a stream: its bytes, its position, and whether
/// writes may extend it.
pub struct StreamState {
    pub data: Seq<u8>,
    pub pos: int,
    pub growable: bool,
}

impl StreamState {
    /// The bytes from the position to the end (empty past the end).
    pub open spec fn remaining(self) -> Seq<u8> {
        if 0 <= self.pos < self.data.len() {
            self.data.subrange(self.pos, self.data.len() as int)
        } else {
            Seq::empty()
        }
    }

    /// The state after moving the position.
    pub open spec fn at(self, pos: int) -> StreamState {
        StreamState { data: self.data, pos, growable: self.growable }
    }

    /// Whether writing `buf` places all of its bytes.
    pub open spec fn write_ok(self, buf: Seq<u8>) -> bool {
        self.growable || buf.len() == 0 || self.pos + buf.len() <= self.data.len()
    }

    /// How many bytes of a `k`-byte write a fixed stream accepts.
    pub open spec fn fixed_count(self, k: int) -> int {
        if self.pos >= self.data.len() {
            0
        } else if k <= self.data.len() - self.pos {
            k
        } else {
            self.data.len() - self.pos
        }
    }

    /// The state after writing `buf` at the position.
    pub open spec fn after_write(self, buf: Seq<u8>) -> StreamState {
        if buf.len() == 0 {
            self
        } else if self.growable {
            let padded = if self.pos > self.data.len() {
                self.data + zeros((self.pos - self.data.len()) as nat)
            } else {
                self.data
            };
            let end = self.pos + buf.len();
            let tail = if end < padded.len() {
                padded.subrange(end, padded.len() as int)
            } else {
                Seq::empty()
            };
            StreamState { data: padded.take(self.pos) + buf + tail, pos: end, growable: true }
        } else {
            let n = self.fixed_count(buf.len() as int);
            let data = if n == 0 {
                self.data
            } else {
                self.data.take(self.pos) + buf.take(n) + self.data.subrange(
                    self.pos + n,
                    self.data.len() as int,
                )
            };
            StreamState { data, pos: self.pos + n, growable: false }
        }
    }

    /// The stream is in a state that the library can produce.
    pub open spec fn wf(self) -> bool {
        0 <= self.pos
    }
}

/// Writing two byte strings one after the other leaves the stream as writing
/// their concatenation does, and succeeds exactly when both writes do.
pub proof fn lemma_write_concat(s: StreamState, a: Seq<u8>, b: Seq<u8>)
    requires
        s.wf(),
    ensures
        s.after_write(a).after_write(b) == s.after_write(a + b),
        s.write_ok(a + b) == (s.write_ok(a) && s.after_write(a).write_ok(b)),
        !s.write_ok(a) ==> s.after_write(a + b) == s.after_write(a),
{
    let ab = a + b;
    if a.len() == 0 {
        assert(ab =~= b);
    } else if b.len() == 0 {
        assert(ab =~= a);
    } else if s.growable {
        let padded = if s.pos > s.data.len() {
            s.data + zeros((s.pos - s.data.len()) as nat)
        } else {
            s.data
        };
        let s1 = s.after_write(a);
        let end1 = s.pos + a.len();
        let end2 = end1 + b.len();
        assert(s1.pos == end1);
        assert(s1.data.len() >= end1);
        let r1 = s1.after_write(b);
        let r2 = s.after_write(ab);
        assert(padded.len() >= s.pos);
        assert(s1.data =~= padded.take(s.pos) + a + (if end1 < padded.len() {
            padded.subrange(end1, padded.len() as int)
        } else {
            Seq::empty()
        }));
        assert(r1.data.len() == r2.data.len());
        assert forall|i: int| 0 <= i < r1.data.len() implies r1.data[i] == r2.data[i] by {
            if i < s.pos {
            } else if i < end1 {
            } else if i < end2 {
            } else {
            }
        }
        assert(r1.data =~= r2.data);
    } else {
        let s1 = s.after_write(a);
        let r1 = s1.after_write(b);
        let r2 = s.after_write(ab);
        let n1 = s.fixed_count(a.len() as int);
        let n2 = s1.fixed_count(b.len() as int);
        let n = s.fixed_count(ab.len() as int);
        assert(n == n1 + n2);
        assert(s1.data.len() == s.data.len());
        assert(r1.data.len() == r2.data.len());
        assert forall|i: int| 0 <= i < r1.data.len() implies r1.data[i] == r2.data[i] by {
            if i < s.pos {
            } else if i < s.pos + n1 {
            } else if i < s.pos + n {
            } else {
            }
        }
        assert(r1.data =~= r2.data);
    }
}

/// Moving the position forward by `k` bytes drops the first `k` remaining
/// bytes.
pub proof fn lemma_remaining_advance(s: StreamState, k: int)
    requires
        s.wf(),
        0 <= k <= s.remaining().len(),
    ensures
        s.at(s.pos + k).remaining() == s.remaining().subrange(k, s.remaining().len() as int),
{
    assert(s.at(s.pos + k).remaining() =~= s.remaining().subrange(k, s.remaining().len() as int));
}

/// An in-memory stream of bytes with a position.
pub struct Cursor {
    data: Vec<u8>,
    pos: usize,
    growable: bool,
}

impl View for Cursor {
    type V = StreamState;

    closed spec fn view(&self) -> StreamState {
        StreamState { data: self.data@, pos: self.pos as int, growable: self.growable }
    }
}

/// The state of every stream is well formed.
pub broadcast proof fn lemma_cursor_wf(c: &Cursor)
    ensures
        (#[trigger] c@).wf(),
{
}

impl Cursor {
    /// A stream over `data`, positioned at its start, that grows when written
    /// past its end.
    pub fn new(data: Vec<u8>) -> (r: Cursor)
        ensures
            r@.data == data@,
            r@.pos == 0,
            r@.growable,
    {
        Cursor { data, pos: 0, growable: true }
    }

    /// A stream over `data` whose size is fixed: writes past its end fail.
    pub fn fixed(data: Vec<u8>) -> (r: Cursor)
        ensures
            r@.data == data@,
            r@.pos == 0,
            !r@.growable,
    {
        Cursor { data, pos: 0, growable: false }
    }

    /// The current position.
    pub fn position(&self) -> (r: usize)
        ensures
            r as int == self@.pos,
    {
        self.pos
    }

    /// Moves the position; it may lie past the end.
    pub fn set_position(&mut self, pos: usize)
        ensures
            final(self)@ == old(self)@.at(pos as int),
    {
        self.pos = pos;
    }

    /// The bytes of the stream.
    pub fn get_ref(&self) -> (r: &Vec<u8>)
        ensures
            r@ == self@.data,
    {
        &self.data
    }

    /// The number of bytes in the stream.
    pub fn len(&self) -> (r: usize)
        ensures
            r == self@.data.len(),
    {
        self.data.len()
    }

    /// Gives back the bytes of the stream.
    pub fn into_inner(self) -> (r: Vec<u8>)
        ensures
            r@ == self@.data,
    {
        self.data
    }

    /// Reads exactly `n` bytes. When fewer are left, fails with
    /// `UnexpectedEof` and moves the position to the end.
    pub fn read_exact(&mut self, n: usize) -> (r: Result<Vec<u8>, IoErrorKind>)
        ensures
            match r {
                Ok(v) => {
                    &&& n <= old(self)@.remaining().len()
                    &&& v@ == old(self)@.remaining().take(n as int)
                    &&& final(self)@ == old(self)@.at(old(self)@.pos + n)
                },
                Err(e) => {
                    &&& e == IoErrorKind::UnexpectedEof
                    &&& n > old(self)@.remaining().len()
                    &&& final(self)@ == old(self)@.at(old(self)@.data.len() as int)
                },
            },
    {
        let len = self.data.len();
        let left: usize = if self.pos < len {
            len - self.pos
        } else {
            0
        };
        if n > left {
            self.pos = len;
            return Err(IoErrorKind::UnexpectedEof);
        }
        let mut out: Vec<u8> = Vec::with_capacity(n);
        let start = self.pos;
        let mut i: usize = 0;
        while i < n
            invariant
                i <= n,
                n <= left,
                left == (if start < len { len - start } else { 0int }),
                len == self.data.len(),
                start == self.pos,
                out@ =~= self@.remaining().take(i as int),
            decreases n - i,
        {
            out.push(self.data[start + i]);
            i = i + 1;
        }
        self.pos = start + n;
        Ok(out)
    }

    /// Reads up to `n` bytes: as many as are left, if fewer.
    pub fn read_up_to(&mut self, n: usize) -> (r: Vec<u8>)
        ensures
            n <= old(self)@.remaining().len() ==> r@ == old(self)@.remaining().take(n as int),
            n > old(self)@.remaining().len() ==> r@ == old(self)@.remaining(),
            final(self)@ == old(self)@.at(old(self)@.pos + r@.len()),
    {
        let len = self.data.len();
        let left: usize = if self.pos < len {
            len - self.pos
        } else {
            0
        };
        let count = if n < left {
            n
        } else {
            left
        };
        let mut out: Vec<u8> = Vec::with_capacity(count);
        let start = self.pos;
        let mut i: usize = 0;
        while i < count
            invariant
                i <= count,
                count <= left,
                left == (if start < len { len - start } else { 0int }),
                len == self.data.len(),
                start == self.pos,
                out@ =~= self@.remaining().take(i as int),
            decreases count - i,
        {
            out.push(self.data[start + i]);
            i = i + 1;
        }
        proof {
            if n > left {
                assert(out@ =~= old(self)@.remaining());
            }
        }
        self.pos = start + count;
        out
    }

    /// Reads every byte from the position to the end.
    pub fn read_to_end(&mut self) -> (r: Vec<u8>)
        ensures
            r@ == old(self)@.remaining(),
            final(self)@ == old(self)@.at(old(self)@.pos + r@.len()),
    {
        let len = self.data.len();
        let left: usize = if self.pos < len {
            len - self.pos
        } else {
            0
        };
        self.read_up_to(left)
    }

    /// Writes all of `buf` at the position. A fixed stream takes what fits
    /// and fails with `WriteZero` if that is not all of it.
    pub fn write_all(&mut self, buf: &[u8]) -> (r: Result<(), IoErrorKind>)
        ensures
            final(self)@ == old(self)@.after_write(buf@),
            r is Ok <==> old(self)@.write_ok(buf@),
            r matches Err(e) ==> e == IoErrorKind::WriteZero,
    {
        let ghost s = self@;
        if buf.len() == 0 {
            return Ok(());
        }
        if self.growable {
            let ghost padded = if s.pos > s.data.len() {
                s.data + zeros((s.pos - s.data.len()) as nat)
            } else {
                s.data
            };
            while self.data.len() < self.pos
                invariant
                    self.pos == s.pos,
                    self.growable,
                    s.growable,
                    s.wf(),
                    padded == (if s.pos > s.data.len() {
                        s.data + zeros((s.pos - s.data.len()) as nat)
                    } else {
                        s.data
                    }),
                    self.data@.len() <= self.pos || self.data@.len() == s.data.len(),
                    s.data.len() <= self.data@.len(),
                    self.data@ =~= padded.take(self.data@.len() as int),
                    padded.len() >= self.pos,
                    padded.len() >= s.data.len(),
                decreases self.pos - self.data.len(),
            {
                proof {
                    assert(s.pos > s.data.len());
                    assert(padded == s.data + zeros((s.pos - s.data.len()) as nat));
                    let k = self.data@.len() as int;
                    assert(padded[k] == zeros((s.pos - s.data.len()) as nat)[k - s.data.len()]);
                }
                self.data.push(0);
            }
            assert(self.data@ =~= padded);
            let start = self.pos;
            let mut i: usize = 0;
            while i < buf.len()
                invariant
                    i <= buf@.len(),
                    start == s.pos,
                    self.growable,
                    s.growable,
                    self.pos == start,
                    padded == (if s.pos > s.data.len() {
                        s.data + zeros((s.pos - s.data.len()) as nat)
                    } else {
                        s.data
                    }),
                    padded.len() >= start,
                    self.data@.len() == (if padded.len() > start + i {
                        padded.len() as int
                    } else {
                        start + i
                    }),
                    forall|k: int|
                        0 <= k < self.data@.len() ==> #[trigger] self.data@[k] == (if k < start {
                            padded[k]
                        } else if k < start + i {
                            buf@[k - start]
                        } else {
                            padded[k]
                        }),
                decreases buf.len() - i,
            {
                let len = self.data.len();
                let p = start + i;
                if p < len {
                    self.data.set(p, buf[i]);
                } else {
                    self.data.push(buf[i]);
                }
                i = i + 1;
            }
            let _len = self.data.len();
            self.pos = start + buf.len();
            assert(self.data@ =~= s.after_write(buf@).data);
            assert(self@.data == s.after_write(buf@).data);
            assert(self@.pos == s.after_write(buf@).pos);
            assert(self@.growable == s.after_write(buf@).growable);
            assert(self@ == s.after_write(buf@));
            Ok(())
        } else {
            let len = self.data.len();
            let room: usize = if self.pos < len {
                len - self.pos
            } else {
                0
            };
            let count = if buf.len() <= room {
                buf.len()
            } else {
                room
            };
            let start = self.pos;
            let mut i: usize = 0;
            while i < count
                invariant
                    i <= count,
                    count <= room,
                    room == (if start < len { len - start } else { 0int }),
                    len == self.data@.len(),
                    count <= buf@.len(),
                    start == s.pos,
                    !self.growable,
                    self.pos == start,
                    s.data.len() == len,
                    forall|k: int|
                        0 <= k < len ==> #[trigger] self.data@[k] == (if start <= k < start + i {
                            buf@[k - start]
                        } else {
                            s.data[k]
                        }),
                decreases count - i,
            {
                self.data.set(start + i, buf[i]);
                i = i + 1;
            }
            self.pos = start + count;
            assert(count == s.fixed_count(buf@.len() as int));
            assert(self.data@ =~= s.after_write(buf@).data);
            assert(self@ == s.after_write(buf@));
            if count < buf.len() {
                Err(IoErrorKind::WriteZero)
            } else {
                Ok(())
            }
        }
    }
}

} // verus!
