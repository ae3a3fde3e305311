//! The stream interface: sequential reads and writes over a cursor, seeking, and
//! the conveniences built on them.
use vstd::prelude::*;
use vstd::string::StringExecFns;

verus! {

/// What went wrong in a stream operation.
#[derive(Clone, Copy, Debug, PartialEq, Eq, Structural)]
pub enum IoErrorKind {
    /// The stream ended before the bytes asked for were there.
    UnexpectedEof,
    /// The sink accepted no more bytes.
    WriteZero,
    /// A seek or a size was out of range.
    InvalidInput,
    /// Anything else the device reports.
    Other,
}

/// A failed stream operation.
#[derive(Debug)]
pub struct IoError {
    pub kind: IoErrorKind,
    pub message: String,
}

impl IoError {
    pub fn new(kind: IoErrorKind, message: &str) -> (r: IoError)
        ensures
            r.kind == kind,
            r.message@ == message@,
    {
        IoError { kind, message: String::from_str(message) }
    }
}

/// Where a seek is counted from.
#[derive(Clone, Copy, Debug, PartialEq, Eq, Structural)]
pub enum SeekFrom {
    Start(u64),
    End(i64),
    Current(i64),
}

/// The offset a seek aims at, from the cursor `offset` of a stream of `len` bytes.
pub open spec fn seek_target(from: SeekFrom, offset: int, len: int) -> int {
    match from {
        SeekFrom::Start(p) => p as int,
        SeekFrom::End(d) => len + d,
        SeekFrom::Current(d) => offset + d,
    }
}

/// How many bytes lie between the cursor `off` and the end of `c`.
pub open spec fn available(c: Seq<u8>, off: nat) -> nat {
    if off < c.len() {
        (c.len() - off) as nat
    } else {
        0
    }
}

/// The `n` bytes of `c` from offset `off` on.
pub open spec fn bytes_at(c: Seq<u8>, off: nat, n: nat) -> Seq<u8> {
    Seq::new(n, |i: int| c[off + i])
}

/// What lies between the cursor `off` and the end of `c`.
pub open spec fn remaining(c: Seq<u8>, off: nat) -> Seq<u8> {
    if off < c.len() {
        c.skip(off as int)
    } else {
        Seq::empty()
    }
}

/// The bytes at the cursor are the front of what remains.
pub proof fn lemma_bytes_at_remaining(c: Seq<u8>, off: nat, n: nat)
    requires
        n <= available(c, off),
    ensures
        bytes_at(c, off, n) == remaining(c, off).take(n as int),
        remaining(c, off).len() == available(c, off),
{
    assert(bytes_at(c, off, n) =~= remaining(c, off).take(n as int));
}

/// Moving the cursor on by `n` leaves what remained past those `n` bytes.
pub proof fn lemma_remaining_advance(c: Seq<u8>, off: nat, n: nat)
    requires
        n <= available(c, off),
    ensures
        remaining(c, off + n) == remaining(c, off).skip(n as int),
        available(c, off + n) == available(c, off) - n,
{
    assert(remaining(c, off + n) =~= remaining(c, off).skip(n as int));
}

/// `c` with `b` written over it at `off`; a gap past the end of `c` is
/// filled with zeros. Writing nothing changes nothing.
pub open spec fn overwrite(c: Seq<u8>, off: nat, b: Seq<u8>) -> Seq<u8> {
    let end = off + b.len();
    if b.len() == 0 { c } else { Seq::new(
        if end > c.len() { end } else { c.len() },
        |i: int|
            if off <= i < end {
                b[i - off]
            } else if i < c.len() {
                c[i]
            } else {
                0u8
            },
    ) }
}

/// Writing `a` and then `b` right after it is writing `a + b`.
pub proof fn lemma_overwrite_concat(c: Seq<u8>, off: nat, a: Seq<u8>, b: Seq<u8>)
    ensures
        overwrite(overwrite(c, off, a), off + a.len(), b) == overwrite(c, off, a + b),
{
    assert(overwrite(overwrite(c, off, a), off + a.len(), b) =~= overwrite(c, off, a + b));
}

/// The model of a stream: the bytes it holds, its cursor, and whether it is
/// a device that never fails (an in-memory buffer) or one that may.
pub trait Stream {
    /// Every byte the stream holds, from offset zero.
    spec fn content(&self) -> Seq<u8>;

    /// The cursor: where the next read or write starts.
    spec fn offset(&self) -> nat;

    /// The stream never reports an error of its own.
    spec fn faultless(&self) -> bool;

    /// Every write starts again at the front of the stream, which has no
    /// cursor of its own (a plain vector used as a sink): the cursor stays
    /// at zero, and a write must cover the whole of what the sink holds.
    spec fn restarts(&self) -> bool;

    /// A cursor and a length always fit in 64 bits.
    proof fn lemma_stream_bounds(&self)
        ensures
            self.offset() <= u64::MAX,
            self.content().len() <= u64::MAX,
    ;
}

/// A source of bytes.
pub trait Read: Stream {
    /// Reads up to `buf.len()` bytes from the cursor into the front of `buf`
    /// and returns how many; zero means the end was reached (or `buf` is
    /// empty). A failed read has read nothing.
    fn read(&mut self, buf: &mut [u8]) -> (r: Result<usize, IoError>)
        ensures
            final(buf)@.len() == old(buf)@.len(),
            final(self).content() == old(self).content(),
            final(self).faultless() == old(self).faultless(),
            match r {
                Ok(n) => {
                    &&& n <= old(buf)@.len()
                    &&& n <= available(old(self).content(), old(self).offset())
                    &&& (n == 0 ==> old(buf)@.len() == 0 || available(old(self).content(), old(self).offset()) == 0)
                    &&& final(buf)@.take(n as int) == bytes_at(old(self).content(), old(self).offset(), n as nat)
                    &&& final(self).offset() == old(self).offset() + n
                    &&& (old(self).faultless() ==> (n == old(buf)@.len() || n == available(
                        old(self).content(),
                        old(self).offset(),
                    )))
                },
                Err(e) => {
                    &&& !old(self).faultless()
                    &&& e.kind != IoErrorKind::UnexpectedEof
                    &&& final(self).offset() == old(self).offset()
                },
            },
    ;

    fn flush(&mut self) -> (r: Result<(), IoError>)
        ensures
            final(self).content() == old(self).content(),
            final(self).offset() == old(self).offset(),
            final(self).faultless() == old(self).faultless(),
            old(self).faultless() ==> r is Ok,
    ;

    /// Fills `buf` entirely from the cursor, or fails with `UnexpectedEof`
    /// when the stream ends first.
    fn read_exact(&mut self, buf: &mut [u8]) -> (r: Result<(), IoError>)
        ensures
            final(buf)@.len() == old(buf)@.len(),
            final(self).content() == old(self).content(),
            final(self).faultless() == old(self).faultless(),
            r is Ok ==> {
                &&& old(buf)@.len() <= available(old(self).content(), old(self).offset())
                &&& final(buf)@ == bytes_at(old(self).content(), old(self).offset(), old(buf)@.len())
                &&& final(self).offset() == old(self).offset() + old(buf)@.len()
            },
            old(self).faultless() ==> (r is Ok <==> old(buf)@.len() <= available(
                old(self).content(),
                old(self).offset(),
            )),
            old(self).faultless() ==> (r matches Err(e) ==> e.kind == IoErrorKind::UnexpectedEof),
            old(buf)@.len() == 0 ==> r is Ok && final(self).offset() == old(self).offset(),
            r matches Err(e) && e.kind == IoErrorKind::UnexpectedEof ==> {
                &&& available(old(self).content(), final(self).offset()) == 0
                &&& old(buf)@.len() > available(old(self).content(), old(self).offset())
            },
    {
        let len = buf.len();
        let ghost c0 = old(self).content();
        let ghost off0 = old(self).offset();
        let mut n: usize = 0;
        while n < len
            invariant
                c0 == old(self).content(),
                off0 == old(self).offset(),
                len == old(buf)@.len(),
                buf@.len() == old(buf)@.len(),
                self.content() == old(self).content(),
                self.faultless() == old(self).faultless(),
                self.offset() == off0 + n,
                n <= len,
                n <= available(c0, off0),
                buf@.take(n as int) == bytes_at(c0, off0, n as nat),
            decreases len - n,
        {
            let ghost before = buf@;
            let (front, rest) = buf.split_at_mut(n);
            let count = self.read(rest);
            let ghost after = rest@;
            let ghost kept = front@;
            match count {
                Ok(count) => {
                    if count == 0 {
                        return Err(IoError::new(IoErrorKind::UnexpectedEof, "failed to fill whole buffer"));
                    }
                    assert(buf@.take(n + count) =~= bytes_at(c0, off0, (n + count) as nat)) by {
                        assert(buf@ == kept + after);
                        assert(kept =~= before.take(n as int));
                        assert forall|i: int| n <= i < n + count implies buf@[i] == c0[off0 + i] by {
                            assert(buf@[i] == after[i - n]);
                            assert(after.take(count as int)[i - n] == after[i - n]);
                        }
                    }
                    n = n + count;
                },
                Err(e) => {
                    return Err(e);
                },
            }
        }
        assert(buf@.take(len as int) =~= buf@);
        Ok(())
    }

    /// Appends everything from the cursor to the end onto `buf` and returns
    /// how many bytes that was.
    fn read_to_end(&mut self, buf: &mut Vec<u8>) -> (r: Result<usize, IoError>)
        ensures
            final(self).content() == old(self).content(),
            final(self).faultless() == old(self).faultless(),
            r matches Ok(n) ==> {
                &&& n == available(old(self).content(), old(self).offset())
                &&& final(buf)@ == old(buf)@ + bytes_at(old(self).content(), old(self).offset(), n as nat)
                &&& final(self).offset() == old(self).offset() + n
            },
            old(self).faultless() && old(buf)@.len() + available(old(self).content(), old(self).offset())
                <= usize::MAX ==> r is Ok,
    {
        let start_len = buf.len();
        let ghost c0 = old(self).content();
        let ghost off0 = old(self).offset();
        let mut chunk: Vec<u8> = vec![0u8; 8192];
        loop
            invariant
                c0 == old(self).content(),
                off0 == old(self).offset(),
                self.content() == old(self).content(),
                self.faultless() == old(self).faultless(),
                off0 <= self.offset(),
                self.offset() - off0 <= available(c0, off0),
                start_len == old(buf)@.len(),
                buf@ == old(buf)@ + bytes_at(c0, off0, (self.offset() - off0) as nat),
                chunk@.len() == 8192,
            decreases available(c0, self.offset()),
        {
            let ghost here = self.offset();
            let count = self.read(chunk.as_mut_slice());
            match count {
                Ok(count) => {
                    if count == 0 {
                        assert(available(c0, here) == 0);
                        return Ok(buf.len() - start_len);
                    }
                    if buf.len() > usize::MAX - count {
                        return Err(IoError::new(IoErrorKind::InvalidInput, "stream too long for memory"));
                    }
                    buf.extend_from_slice(vstd::slice::slice_subrange(chunk.as_slice(), 0, count));
                    assert(buf@ =~= old(buf)@ + bytes_at(c0, off0, (self.offset() - off0) as nat)) by {
                        assert(chunk@.subrange(0, count as int) =~= chunk@.take(count as int));
                        assert(bytes_at(c0, off0, (self.offset() - off0) as nat) =~= bytes_at(
                            c0,
                            off0,
                            (here - off0) as nat,
                        ) + bytes_at(c0, here, count as nat));
                    }
                },
                Err(e) => {
                    return Err(e);
                },
            }
        }
    }
}

/// A sink of bytes.
pub trait Write: Stream {
    /// Writes the front of `buf` at the cursor and returns how many bytes
    /// were taken. A failed write has written nothing. A sink reports that
    /// it takes no more bytes by taking none, not by an error of kind
    /// `WriteZero`.
    fn write(&mut self, buf: &[u8]) -> (r: Result<usize, IoError>)
        ensures
            final(self).faultless() == old(self).faultless(),
            final(self).restarts() == old(self).restarts(),
            match r {
                Ok(n) => {
                    &&& n <= buf@.len()
                    &&& final(self).content() == overwrite(
                        old(self).content(),
                        old(self).offset(),
                        buf@.take(n as int),
                    )
                    &&& final(self).offset() == if old(self).restarts() {
                        old(self).offset() as int
                    } else {
                        old(self).offset() + n
                    }
                    &&& (old(self).faultless() || old(self).restarts() ==> n == buf@.len())
                },
                Err(e) => {
                    &&& e.kind != IoErrorKind::WriteZero
                    &&& final(self).content() == old(self).content()
                    &&& final(self).offset() == old(self).offset()
                },
            },
            old(self).restarts() && buf@.len() != old(self).content().len() ==> r is Err,
            old(self).faultless() && old(self).offset() + buf@.len() <= usize::MAX && (old(self).restarts()
                ==> buf@.len() == old(self).content().len()) ==> r is Ok,
    ;

    fn flush(&mut self) -> (r: Result<(), IoError>)
        ensures
            final(self).content() == old(self).content(),
            final(self).offset() == old(self).offset(),
            final(self).faultless() == old(self).faultless(),
            old(self).faultless() ==> r is Ok,
    ;

    /// Writes all of `buf` at the cursor, or fails with `WriteZero` when the
    /// sink stops taking bytes. An empty `buf` makes no write.
    fn write_all(&mut self, buf: &[u8]) -> (r: Result<(), IoError>)
        ensures
            final(self).faultless() == old(self).faultless(),
            final(self).restarts() == old(self).restarts(),
            r is Ok ==> {
                &&& final(self).content() == overwrite(old(self).content(), old(self).offset(), buf@)
                &&& final(self).offset() == if old(self).restarts() {
                    old(self).offset()
                } else {
                    old(self).offset() + buf@.len()
                }
            },
            buf@.len() == 0 ==> r is Ok && final(self).content() == old(self).content() && final(self).offset()
                == old(self).offset(),
            old(self).restarts() && buf@.len() != 0 && buf@.len() != old(self).content().len() ==> r is Err,
            old(self).faultless() && old(self).offset() + buf@.len() <= usize::MAX && (old(self).restarts()
                ==> buf@.len() == 0 || buf@.len() == old(self).content().len()) ==> r is Ok,
            r matches Err(e) && e.kind == IoErrorKind::WriteZero ==> !old(self).faultless()
                && !old(self).restarts(),
    {
        let len = buf.len();
        let ghost c0 = old(self).content();
        let ghost off0 = old(self).offset();
        let mut n: usize = 0;
        assert(buf@.take(0) =~= Seq::<u8>::empty());
        while n < len
            invariant
                c0 == old(self).content(),
                off0 == old(self).offset(),
                n <= len,
                len == buf@.len(),
                self.faultless() == old(self).faultless(),
                self.restarts() == old(self).restarts(),
                self.content() == overwrite(c0, off0, buf@.take(n as int)),
                self.offset() == if old(self).restarts() { off0 as int } else { off0 + n },
                old(self).restarts() ==> n == 0,
            decreases len - n,
        {
            let rest = vstd::slice::slice_subrange(buf, n, len);
            let count = self.write(rest);
            match count {
                Ok(count) => {
                    if count == 0 {
                        return Err(IoError::new(IoErrorKind::WriteZero, "failed to write whole buffer"));
                    }
                    proof {
                        lemma_overwrite_concat(c0, off0, buf@.take(n as int), rest@.take(count as int));
                        assert(buf@.take(n as int) + rest@.take(count as int) =~= buf@.take(n + count));
                        if old(self).restarts() {
                            assert(rest@ =~= buf@);
                        }
                    }
                    n = n + count;
                    if n == len {
                        assert(buf@.take(len as int) =~= buf@);
                        return Ok(());
                    }
                },
                Err(e) => {
                    return Err(e);
                },
            }
        }
        assert(buf@.take(len as int) =~= buf@);
        Ok(())
    }
}

/// A stream whose cursor can be moved.
pub trait Seek: Stream {
    /// Moves the cursor and returns its new offset. A target before the
    /// start fails and leaves the cursor where it was.
    fn seek(&mut self, pos: SeekFrom) -> (r: Result<u64, IoError>)
        ensures
            final(self).content() == old(self).content(),
            final(self).faultless() == old(self).faultless(),
            match r {
                Ok(p) => {
                    &&& p == seek_target(pos, old(self).offset() as int, old(self).content().len() as int)
                    &&& final(self).offset() == p
                },
                Err(_) => final(self).offset() == old(self).offset(),
            },
            old(self).faultless() ==> (r is Ok <==> 0 <= seek_target(
                pos,
                old(self).offset() as int,
                old(self).content().len() as int,
            ) <= u64::MAX),
    ;

    /// Moves the cursor by `delta` bytes.
    fn seek_relative(&mut self, delta: i64) -> (r: Result<(), IoError>)
        ensures
            final(self).content() == old(self).content(),
            final(self).faultless() == old(self).faultless(),
            r is Ok ==> final(self).offset() == old(self).offset() + delta,
            r is Err ==> final(self).offset() == old(self).offset(),
            old(self).faultless() ==> (r is Ok <==> 0 <= old(self).offset() + delta <= u64::MAX),
    {
        match self.seek(SeekFrom::Current(delta)) {
            Ok(_) => Ok(()),
            Err(e) => Err(e),
        }
    }

    /// The cursor's offset.
    fn stream_position(&mut self) -> (r: Result<u64, IoError>)
        ensures
            final(self).content() == old(self).content(),
            final(self).faultless() == old(self).faultless(),
            final(self).offset() == old(self).offset(),
            r matches Ok(p) ==> p == old(self).offset(),
            old(self).faultless() && old(self).offset() <= u64::MAX ==> r is Ok,
    {
        self.seek(SeekFrom::Current(0))
    }

    /// Moves the cursor back to the start.
    fn rewind(&mut self) -> (r: Result<(), IoError>)
        ensures
            final(self).content() == old(self).content(),
            final(self).faultless() == old(self).faultless(),
            r is Ok ==> final(self).offset() == 0,
            r is Err ==> final(self).offset() == old(self).offset(),
            old(self).faultless() ==> r is Ok,
    {
        match self.seek(SeekFrom::Start(0)) {
            Ok(_) => Ok(()),
            Err(e) => Err(e),
        }
    }

    /// The stream's length: seeks to the end, notes the offset, and seeks
    /// back to where the cursor was.
    fn stream_len(&mut self) -> (r: Result<u64, IoError>)
        ensures
            final(self).content() == old(self).content(),
            final(self).faultless() == old(self).faultless(),
            r matches Ok(n) ==> n == old(self).content().len() && final(self).offset() == old(self).offset(),
            old(self).faultless() && old(self).offset() <= u64::MAX && old(self).content().len() <= u64::MAX
                ==> r is Ok,
    {
        let here = self.stream_position()?;
        let len = self.seek(SeekFrom::End(0))?;
        self.seek(SeekFrom::Start(here))?;
        Ok(len)
    }
}

/// A source that can also be read at any offset without moving its cursor.
pub trait ReadAt: Stream {
    /// Reads up to `buf.len()` bytes starting at `offset` into the front of
    /// `buf` and returns how many; zero at or past the end of the data.
    fn read_at(&self, buf: &mut [u8], offset: u64) -> (r: Result<usize, IoError>)
        ensures
            final(buf)@.len() == old(buf)@.len(),
            r matches Ok(n) ==> {
                &&& n <= old(buf)@.len()
                &&& n <= available(self.content(), offset as nat)
                &&& final(buf)@.take(n as int) == bytes_at(self.content(), offset as nat, n as nat)
                &&& (self.faultless() ==> (n == old(buf)@.len() || n == available(self.content(), offset as nat)))
            },
            self.faultless() ==> r is Ok,
    ;
}

impl ReadAt for Cursor {
    fn read_at(&self, buf: &mut [u8], offset: u64) -> (r: Result<usize, IoError>) {
        let len = self.data.len();
        if offset >= len as u64 {
            return Ok(0);
        }
        let start = offset as usize;
        let avail = len - start;
        let n: usize = if buf.len() < avail {
            buf.len()
        } else {
            avail
        };
        let mut i: usize = 0;
        while i < n
            invariant
                i <= n,
                n <= buf@.len(),
                start + n <= self.data@.len(),
                self.data@.len() == len,
                buf@.len() == old(buf)@.len(),
                forall|k: int| 0 <= k < i ==> buf@[k] == self.data@[start + k],
            decreases n - i,
        {
            buf[i] = self.data[start + i];
            i = i + 1;
        }
        assert(buf@.take(n as int) =~= bytes_at(self.data@, start as nat, n as nat));
        Ok(n)
    }
}

/// The bytes a `limit`-bounded view over `c` with cursor `off` can deliver.
pub open spec fn bounded_content(c: Seq<u8>, off: nat, limit: nat) -> Seq<u8> {
    if off + limit < c.len() {
        c.take(off + limit as int)
    } else {
        c
    }
}

/// A view of a source that ends after a number of bytes, whatever the
/// source still holds.
pub struct Take<R> {
    inner: R,
    limit: u64,
}

impl<R: Stream> Stream for Take<R> {
    closed spec fn content(&self) -> Seq<u8> {
        bounded_content(self.inner.content(), self.inner.offset(), self.limit as nat)
    }

    closed spec fn offset(&self) -> nat {
        self.inner.offset()
    }

    closed spec fn faultless(&self) -> bool {
        self.inner.faultless()
    }

    closed spec fn restarts(&self) -> bool {
        self.inner.restarts()
    }

    proof fn lemma_stream_bounds(&self) {
        self.inner.lemma_stream_bounds();
    }
}

impl<R: Stream> Take<R> {
    /// How many more bytes this view will deliver at most.
    pub closed spec fn spec_limit(&self) -> nat {
        self.limit as nat
    }

    pub fn limit(&self) -> (r: u64)
        ensures
            r == self.spec_limit(),
    {
        self.limit
    }

    /// Gives the source back.
    pub fn into_inner(self) -> (r: R)
        ensures
            bounded_content(r.content(), r.offset(), self.spec_limit()) == self.content(),
            r.offset() == self.offset(),
    {
        self.inner
    }
}

impl<R: Read> Read for Take<R> {
    /// Reads at most as many bytes as the limit allows, and lowers the
    /// limit by what was read; at limit zero it reads nothing.
    fn read(&mut self, buf: &mut [u8]) -> (r: Result<usize, IoError>)
        ensures
            old(self).spec_limit() == 0 ==> r == Ok::<usize, IoError>(0) && final(self).spec_limit() == 0,
            r matches Ok(n) ==> n <= old(self).spec_limit() && final(self).spec_limit() == old(self).spec_limit()
                - n,
            r is Err ==> final(self).spec_limit() == old(self).spec_limit(),
    {
        if self.limit == 0 {
            return Ok(0);
        }
        let max: usize = if (buf.len() as u64) < self.limit {
            buf.len()
        } else {
            self.limit as usize
        };
        let ghost c = self.inner.content();
        let ghost off = self.inner.offset();
        let ghost lim = self.limit as nat;
        let (front, back) = buf.split_at_mut(max);
        let n = self.inner.read(front)?;
        let ghost got = front@;
        let ghost rest = back@;
        assert(buf@ == got + rest);
        assert(buf@.take(n as int) =~= got.take(n as int));
        self.limit = self.limit - n as u64;
        assert(bounded_content(c, off + n as nat, self.limit as nat) == bounded_content(c, off, lim));
        assert(bytes_at(c, off, n as nat) =~= bytes_at(bounded_content(c, off, lim), off, n as nat));
        Ok(n)
    }

    fn flush(&mut self) -> (r: Result<(), IoError>) {
        self.inner.flush()
    }
}

/// Turns a source into a bounded view of it.
pub trait ReadExt: Read + Sized {
    /// A view of this source that ends after `limit` bytes.
    fn take(self, limit: u64) -> (r: Take<Self>)
        ensures
            r.content() == bounded_content(self.content(), self.offset(), limit as nat),
            r.offset() == self.offset(),
            r.faultless() == self.faultless(),
            r.spec_limit() == limit,
    {
        Take { inner: self, limit }
    }
}

impl<R: Read> ReadExt for R {
}

/// An in-memory stream over a growable byte buffer, with a cursor.
pub struct Cursor {
    data: Vec<u8>,
    pos: u64,
}

impl Stream for Cursor {
    closed spec fn content(&self) -> Seq<u8> {
        self.data@
    }

    closed spec fn offset(&self) -> nat {
        self.pos as nat
    }

    closed spec fn faultless(&self) -> bool {
        true
    }

    closed spec fn restarts(&self) -> bool {
        false
    }

    proof fn lemma_stream_bounds(&self) {
        assert(self.data.len() == self.data@.len());
    }
}

impl Cursor {
    /// A cursor at offset zero over `data`.
    pub fn new(data: Vec<u8>) -> (r: Cursor)
        ensures
            r.content() == data@,
            r.offset() == 0,
            r.faultless(),
    {
        Cursor { data, pos: 0 }
    }

    /// Gives the buffer back.
    pub fn into_inner(self) -> (r: Vec<u8>)
        ensures
            r@ == self.content(),
    {
        self.data
    }

    pub fn get_ref(&self) -> (r: &Vec<u8>)
        ensures
            r@ == self.content(),
    {
        &self.data
    }

    pub fn position(&self) -> (r: u64)
        ensures
            r == self.offset(),
    {
        self.pos
    }

    pub fn set_position(&mut self, pos: u64)
        ensures
            final(self).content() == old(self).content(),
            final(self).offset() == pos,
            final(self).faultless(),
    {
        self.pos = pos;
    }
}

impl Read for Cursor {
    fn read(&mut self, buf: &mut [u8]) -> (r: Result<usize, IoError>) {
        let len = self.data.len();
        if self.pos >= len as u64 {
            return Ok(0);
        }
        let start = self.pos as usize;
        let avail = len - start;
        let n: usize = if buf.len() < avail {
            buf.len()
        } else {
            avail
        };
        let mut i: usize = 0;
        while i < n
            invariant
                i <= n,
                n <= buf@.len(),
                start + n <= self.data@.len(),
                self.data@.len() == len,
                buf@.len() == old(buf)@.len(),
                forall|k: int| 0 <= k < i ==> buf@[k] == self.data@[start + k],
            decreases n - i,
        {
            buf[i] = self.data[start + i];
            i = i + 1;
        }
        assert(buf@.take(n as int) =~= self.data@.subrange(start as int, start + n));
        self.pos = self.pos + n as u64;
        Ok(n)
    }

    fn flush(&mut self) -> (r: Result<(), IoError>) {
        Ok(())
    }
}

impl Write for Cursor {
    fn write(&mut self, buf: &[u8]) -> (r: Result<usize, IoError>) {
        if buf.len() == 0 {
            assert(buf@.take(0) =~= Seq::<u8>::empty());
            return Ok(0);
        }
        if self.pos > u64::MAX - buf.len() as u64 {
            return Err(IoError::new(IoErrorKind::InvalidInput, "write would move the cursor out of range"));
        }
        if self.pos > usize::MAX as u64 || usize::MAX - (self.pos as usize) < buf.len() {
            return Err(IoError::new(IoErrorKind::InvalidInput, "write would move the cursor out of range"));
        }
        let ghost c0 = self.data@;
        let start = self.pos as usize;
        while self.data.len() < start
            invariant
                self.data@.len() <= start || self.data@.len() == c0.len(),
                self.data@.take(c0.len() as int) == c0 || self.data@.len() < c0.len(),
                c0.len() <= self.data@.len(),
                forall|k: int| c0.len() <= k < self.data@.len() ==> self.data@[k] == 0u8,
                self.pos == start,
            decreases start - self.data@.len(),
        {
            self.data.push(0u8);
        }
        let mut i: usize = 0;
        while i < buf.len()
            invariant
                i <= buf@.len(),
                start + buf@.len() <= usize::MAX,
                self.pos == start,
                self.data@.len() >= start + i,
                self.data@.len() == if start + i > c0.len() { start + i } else { c0.len() as int },
                forall|k: int|
                    0 <= k < self.data@.len() ==> #[trigger] self.data@[k] == if start <= k < start + i {
                        buf@[k - start]
                    } else if k < c0.len() {
                        c0[k]
                    } else {
                        0u8
                    },
            decreases buf@.len() - i,
        {
            if start + i < self.data.len() {
                self.data.set(start + i, buf[i]);
            } else {
                self.data.push(buf[i]);
            }
            i = i + 1;
        }
        assert(self.data@ =~= overwrite(c0, start as nat, buf@.take(buf@.len() as int)));
        self.pos = self.pos + buf.len() as u64;
        Ok(buf.len())
    }

    fn flush(&mut self) -> (r: Result<(), IoError>) {
        Ok(())
    }
}

impl Seek for Cursor {
    fn seek(&mut self, pos: SeekFrom) -> (r: Result<u64, IoError>) {
        let len = self.data.len() as u64;
        let target: i128 = match pos {
            SeekFrom::Start(p) => p as i128,
            SeekFrom::End(d) => len as i128 + d as i128,
            SeekFrom::Current(d) => self.pos as i128 + d as i128,
        };
        if target < 0 || target > u64::MAX as i128 {
            return Err(IoError::new(IoErrorKind::InvalidInput, "invalid seek to a negative or overflowing position"));
        }
        self.pos = target as u64;
        Ok(self.pos)
    }
}

/// A read-only stream over borrowed bytes, with a cursor.
pub struct ByteReader<'a> {
    data: &'a [u8],
    pos: u64,
}

impl<'a> Stream for ByteReader<'a> {
    closed spec fn content(&self) -> Seq<u8> {
        self.data@
    }

    closed spec fn offset(&self) -> nat {
        self.pos as nat
    }

    closed spec fn faultless(&self) -> bool {
        true
    }

    closed spec fn restarts(&self) -> bool {
        false
    }

    proof fn lemma_stream_bounds(&self) {
        assert(vstd::slice::spec_slice_len(self.data) == self.data@.len());
    }
}

impl<'a> ByteReader<'a> {
    /// A reader at offset zero over `data`.
    pub fn new(data: &'a [u8]) -> (r: ByteReader<'a>)
        ensures
            r.content() == data@,
            r.offset() == 0,
            r.faultless(),
            !r.restarts(),
    {
        ByteReader { data, pos: 0 }
    }

    pub fn position(&self) -> (r: u64)
        ensures
            r == self.offset(),
    {
        self.pos
    }
}

impl<'a> Read for ByteReader<'a> {
    fn read(&mut self, buf: &mut [u8]) -> (r: Result<usize, IoError>) {
        let len = self.data.len();
        if self.pos >= len as u64 {
            return Ok(0);
        }
        let start = self.pos as usize;
        let avail = len - start;
        let n: usize = if buf.len() < avail {
            buf.len()
        } else {
            avail
        };
        let mut i: usize = 0;
        while i < n
            invariant
                i <= n,
                n <= buf@.len(),
                start + n <= self.data@.len(),
                self.data@.len() == len,
                buf@.len() == old(buf)@.len(),
                forall|k: int| 0 <= k < i ==> buf@[k] == self.data@[start + k],
            decreases n - i,
        {
            buf[i] = self.data[start + i];
            i = i + 1;
        }
        assert(buf@.take(n as int) =~= bytes_at(self.data@, start as nat, n as nat));
        self.pos = self.pos + n as u64;
        Ok(n)
    }

    fn flush(&mut self) -> (r: Result<(), IoError>) {
        Ok(())
    }
}

impl<'a> Seek for ByteReader<'a> {
    fn seek(&mut self, pos: SeekFrom) -> (r: Result<u64, IoError>) {
        let len = self.data.len() as u64;
        let target: i128 = match pos {
            SeekFrom::Start(p) => p as i128,
            SeekFrom::End(d) => len as i128 + d as i128,
            SeekFrom::Current(d) => self.pos as i128 + d as i128,
        };
        if target < 0 || target > u64::MAX as i128 {
            return Err(IoError::new(IoErrorKind::InvalidInput, "invalid seek to a negative or overflowing position"));
        }
        self.pos = target as u64;
        Ok(self.pos)
    }
}

/// A vector used as a sink: each write covers the vector from its front,
/// and must be as long as the vector.
impl Stream for Vec<u8> {
    open spec fn content(&self) -> Seq<u8> {
        self@
    }

    open spec fn offset(&self) -> nat {
        0
    }

    open spec fn faultless(&self) -> bool {
        true
    }

    open spec fn restarts(&self) -> bool {
        true
    }

    proof fn lemma_stream_bounds(&self) {
        assert(self.len() == self@.len());
    }
}

impl Write for Vec<u8> {
    /// Copies `buf` over the vector; fails, writing nothing, when their
    /// lengths differ.
    fn write(&mut self, buf: &[u8]) -> (r: Result<usize, IoError>)
        ensures
            buf@.len() == old(self)@.len() ==> r == Ok::<usize, IoError>(buf.len()) && final(self)@ == buf@,
            buf@.len() != old(self)@.len() ==> r is Err && final(self)@ == old(self)@,
    {
        if buf.len() != self.len() {
            return Err(IoError::new(IoErrorKind::InvalidInput, "buffer and sink lengths differ"));
        }
        let ghost c0 = self@;
        let mut i: usize = 0;
        while i < buf.len()
            invariant
                i <= buf@.len(),
                self@.len() == buf@.len(),
                forall|k: int| 0 <= k < i ==> self@[k] == buf@[k],
            decreases buf@.len() - i,
        {
            self.set(i, buf[i]);
            i = i + 1;
        }
        assert(self@ =~= buf@);
        assert(overwrite(c0, 0, buf@.take(buf@.len() as int)) =~= buf@);
        Ok(buf.len())
    }

    fn flush(&mut self) -> (r: Result<(), IoError>) {
        Ok(())
    }
}

/// Copies everything from the cursor of `reader` to its end into `writer`,
/// and returns how many bytes that was. A sink that restarts takes each
/// chunk read over its whole front, so it ends up holding the last chunk.
pub fn copy<R: Read, W: Write>(reader: &mut R, writer: &mut W) -> (r: Result<u64, IoError>)
    ensures
        final(reader).content() == old(reader).content(),
        final(reader).faultless() == old(reader).faultless(),
        final(writer).faultless() == old(writer).faultless(),
        final(writer).restarts() == old(writer).restarts(),
        r matches Ok(n) ==> {
            &&& n == available(old(reader).content(), old(reader).offset())
            &&& final(reader).offset() == old(reader).offset() + n
        },
        !old(writer).restarts() ==> (r matches Ok(n) ==> {
            &&& final(writer).content() == overwrite(
                old(writer).content(),
                old(writer).offset(),
                bytes_at(old(reader).content(), old(reader).offset(), n as nat),
            )
            &&& final(writer).offset() == old(writer).offset() + n
        }),
        old(writer).restarts() && old(reader).faultless() && available(old(reader).content(), old(reader).offset())
            <= 8192 ==> (r matches Ok(n) ==> {
            &&& final(writer).content() == overwrite(
                old(writer).content(),
                old(writer).offset(),
                bytes_at(old(reader).content(), old(reader).offset(), n as nat),
            )
            &&& final(writer).offset() == old(writer).offset()
        }),
        old(reader).faultless() && old(writer).faultless() && old(writer).offset() + available(
            old(reader).content(),
            old(reader).offset(),
        ) <= usize::MAX && (old(writer).restarts() ==> available(old(reader).content(), old(reader).offset())
            == 0 || (available(old(reader).content(), old(reader).offset()) <= 8192 && available(
            old(reader).content(),
            old(reader).offset(),
        ) == old(writer).content().len())) ==> r is Ok,
{
    let ghost rc = old(reader).content();
    let ghost roff = old(reader).offset();
    let ghost wc = old(writer).content();
    let ghost woff = old(writer).offset();
    let ghost avail0 = available(rc, roff);
    let ghost single = old(writer).restarts() && old(reader).faultless() && avail0 <= 8192;
    let mut total: u64 = 0;
    let mut buf: Vec<u8> = vec![0u8; 8192];
    loop
        invariant
            rc == old(reader).content(),
            roff == old(reader).offset(),
            wc == old(writer).content(),
            woff == old(writer).offset(),
            avail0 == available(rc, roff),
            single == (old(writer).restarts() && old(reader).faultless() && avail0 <= 8192),
            reader.content() == rc,
            reader.faultless() == old(reader).faultless(),
            writer.faultless() == old(writer).faultless(),
            writer.restarts() == old(writer).restarts(),
            reader.offset() == roff + total,
            total <= avail0,
            !old(writer).restarts() ==> writer.content() == overwrite(wc, woff, bytes_at(rc, roff, total as nat)),
            !old(writer).restarts() ==> writer.offset() == woff + total,
            old(writer).restarts() ==> writer.offset() == woff,
            single ==> (total == 0 || total == avail0) && writer.content() == overwrite(
                wc,
                woff,
                bytes_at(rc, roff, total as nat),
            ),
            old(writer).restarts() && total == 0 ==> writer.content() == wc,
            buf@.len() == 8192,
        decreases available(rc, reader.offset()),
    {
        let count = reader.read(buf.as_mut_slice())?;
        if count == 0 {
            return Ok(total);
        }
        if total > u64::MAX - count as u64 {
            return Err(IoError::new(IoErrorKind::InvalidInput, "copied length out of range"));
        }
        let chunk = vstd::slice::slice_subrange(buf.as_slice(), 0, count);
        proof {
            lemma_overwrite_concat(wc, woff, bytes_at(rc, roff, total as nat), chunk@);
            assert(bytes_at(rc, roff, total as nat) + chunk@ =~= bytes_at(rc, roff, (total + count) as nat));
            if total == 0 {
                assert(chunk@ =~= bytes_at(rc, roff, count as nat));
            }
        }
        writer.write_all(chunk)?;
        total = total + count as u64;
    }
}

} // verus!
