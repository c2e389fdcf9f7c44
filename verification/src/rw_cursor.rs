//! A byte cursor with independent, monotonically advancing read and write
//! positions over a growable in-memory buffer. It backs the per-process
//! output pipe: a guest appends bytes at the write position and the host
//! drains them from the read position, so bytes are delivered at most once
//! and in write order, and a drain of an empty cursor returns zero bytes
//! instead of blocking.
use vstd::math::min;
use vstd::pervasive::VecAdditionalExecFns;
use vstd::prelude::*;
use vstd::slice::slice_subrange;

verus! {

/// Mathematical model of a cursor: the backing bytes and the two positions.
/// Either position may lie beyond the end of the data.
pub ghost struct CursorModel {
    pub data: Seq<u8>,
    pub pos_w: int,
    pub pos_r: int,
}

/// Index where reading starts: the read position, clamped to the data length.
pub open spec fn read_start(m: CursorModel) -> int {
    min(m.pos_r, m.data.len() as int)
}

/// The bytes that have been written but not yet read.
pub open spec fn unread(m: CursorModel) -> Seq<u8> {
    m.data.subrange(read_start(m), m.data.len() as int)
}

/// A run of `n` zero bytes.
pub open spec fn zeros(n: nat) -> Seq<u8> {
    Seq::new(n, |i: int| 0u8)
}

/// The backing bytes after writing `buf` at position `pos` of `data`:
/// the buffer is zero-padded up to `pos` if it is shorter, bytes under the
/// written range are overwritten, and the rest is appended at the end.
pub open spec fn vec_written(data: Seq<u8>, pos: int, buf: Seq<u8>) -> Seq<u8> {
    let padded = if pos > data.len() {
        data + zeros((pos - data.len()) as nat)
    } else {
        data
    };
    let tail = if pos + buf.len() <= padded.len() {
        padded.skip(pos + buf.len())
    } else {
        Seq::empty()
    };
    padded.take(pos) + buf + tail
}

/// Effect of a cursor write: the data is rewritten at the write position and
/// the write position advances by the whole buffer; the read position is
/// untouched.
pub open spec fn write_model(m: CursorModel, buf: Seq<u8>) -> CursorModel {
    CursorModel {
        data: vec_written(m.data, m.pos_w, buf),
        pos_w: m.pos_w + buf.len(),
        pos_r: m.pos_r,
    }
}

/// How many bytes a read that asks for `n` bytes actually delivers.
pub open spec fn read_amount(m: CursorModel, n: int) -> int {
    min(n, unread(m).len() as int)
}

/// The bytes such a read delivers: the first `read_amount` unread bytes.
pub open spec fn read_result(m: CursorModel, n: int) -> Seq<u8> {
    unread(m).take(read_amount(m, n))
}

/// Effect of such a read on the cursor: only the read position advances,
/// by the number of bytes delivered.
pub open spec fn read_model(m: CursorModel, n: int) -> CursorModel {
    CursorModel { data: m.data, pos_w: m.pos_w, pos_r: m.pos_r + read_amount(m, n) }
}

/// The contents of a row of byte buffers.
pub open spec fn views(bufs: Seq<Vec<u8>>) -> Seq<Seq<u8>> {
    Seq::new(bufs.len(), |i: int| bufs[i]@)
}

/// Sum of the lengths of a row of buffers.
pub open spec fn total_len(bufs: Seq<Seq<u8>>) -> int
    decreases bufs.len(),
{
    if bufs.len() == 0 {
        0
    } else {
        bufs[0].len() + total_len(bufs.drop_first())
    }
}

/// The row of buffers after distributing `bytes` over them in order: each
/// buffer's front is overwritten with the next of the bytes until the bytes
/// run out, and the rest of each buffer keeps its old contents.
pub open spec fn scatter(bytes: Seq<u8>, bufs: Seq<Seq<u8>>) -> Seq<Seq<u8>>
    decreases bufs.len(),
{
    if bufs.len() == 0 {
        bufs
    } else {
        let k = min(bufs[0].len() as int, bytes.len() as int);
        seq![bytes.take(k) + bufs[0].skip(k)] + scatter(bytes.skip(k), bufs.drop_first())
    }
}

proof fn lemma_total_len_push(s: Seq<Seq<u8>>, x: Seq<u8>)
    ensures
        total_len(s.push(x)) == total_len(s) + x.len(),
    decreases s.len(),
{
    if s.len() == 0 {
        assert(s.push(x).drop_first() =~~= s);
    } else {
        assert(s.push(x).drop_first() =~~= s.drop_first().push(x));
        lemma_total_len_push(s.drop_first(), x);
    }
}

/// A cursor that has only ever been written at the end keeps that shape
/// under a write, and the write appends its bytes after the bytes already
/// waiting to be read.
pub proof fn lemma_write_appends(m: CursorModel, a: Seq<u8>)
    requires
        m.pos_w == m.data.len(),
        0 <= m.pos_r <= m.data.len(),
    ensures
        write_model(m, a).pos_w == write_model(m, a).data.len(),
        0 <= write_model(m, a).pos_r <= write_model(m, a).data.len(),
        unread(write_model(m, a)) == unread(m) + a,
{
    assert(vec_written(m.data, m.pos_w, a) =~= m.data + a);
    assert(unread(write_model(m, a)) =~= unread(m) + a);
}

/// Bytes accumulate in write order: writing `a` and then `b` on a drained
/// append-only cursor leaves exactly `a + b` waiting to be read.
pub proof fn lemma_pipe_fifo(m: CursorModel, a: Seq<u8>, b: Seq<u8>)
    requires
        m.pos_w == m.data.len(),
        0 <= m.pos_r <= m.data.len(),
        unread(m).len() == 0,
    ensures
        unread(write_model(write_model(m, a), b)) == a + b,
{
    lemma_write_appends(m, a);
    lemma_write_appends(write_model(m, a), b);
    assert((unread(m) + a) + b =~= a + b);
}

/// Reads deliver the unread bytes in order and at most once: two successive
/// reads return, between them, one contiguous prefix of the waiting bytes.
pub proof fn lemma_read_in_order(m: CursorModel, n1: int, n2: int)
    requires
        0 <= m.pos_r,
        0 <= n1,
        0 <= n2,
    ensures
        read_result(m, n1) + read_result(read_model(m, n1), n2) == unread(m).take(
            min(n1 + n2, unread(m).len() as int),
        ),
{
    assert(unread(read_model(m, n1)) =~= unread(m).skip(read_amount(m, n1)));
    assert(read_result(m, n1) + read_result(read_model(m, n1), n2) =~= unread(m).take(
        min(n1 + n2, unread(m).len() as int),
    ));
}

/// A dual-position cursor over an owned byte buffer.
pub struct RwCursor {
    inner: Vec<u8>,
    pos_w: u64,
    pos_r: u64,
}

impl View for RwCursor {
    type V = CursorModel;

    closed spec fn view(&self) -> CursorModel {
        CursorModel { data: self.inner@, pos_w: self.pos_w as int, pos_r: self.pos_r as int }
    }
}

impl Clone for RwCursor {
    fn clone(&self) -> (c: Self)
        ensures
            c@ == self@,
    {
        RwCursor { inner: self.inner.clone(), pos_w: self.pos_w, pos_r: self.pos_r }
    }
}

impl RwCursor {
    /// A cursor over `inner` with both positions at the start.
    pub fn new(inner: Vec<u8>) -> (c: Self)
        ensures
            c@.data == inner@,
            c@.pos_w == 0,
            c@.pos_r == 0,
    {
        RwCursor { inner, pos_w: 0, pos_r: 0 }
    }

    /// The bytes not yet read, as a borrowed slice.
    pub fn remaining_slice_read(&self) -> (r: &[u8])
        ensures
            r@ == unread(self@),
    {
        let len = self.inner.len();
        let start: usize = if self.pos_r < len as u64 {
            self.pos_r as usize
        } else {
            len
        };
        slice_subrange(self.inner.as_slice(), start, len)
    }

    /// Whether every written byte has already been read.
    pub fn is_empty_read(&self) -> (b: bool)
        ensures
            b == (unread(self@).len() == 0),
    {
        self.pos_r >= self.inner.len() as u64
    }

    /// Drain up to `buf.len()` unread bytes into the front of `buf`, never
    /// blocking: the number of bytes actually delivered is returned, and the
    /// read position advances by exactly that number.
    #[verifier::loop_isolation(false)]
    pub fn read(&mut self, buf: &mut Vec<u8>) -> (n: usize)
        ensures
            n == read_amount(old(self)@, old(buf)@.len() as int),
            final(buf)@ == read_result(old(self)@, old(buf)@.len() as int) + old(buf)@.skip(
                n as int,
            ),
            final(self)@ == read_model(old(self)@, old(buf)@.len() as int),
    {
        let len = self.inner.len();
        let start: usize = if self.pos_r < len as u64 {
            self.pos_r as usize
        } else {
            len
        };
        let avail = len - start;
        let n = if buf.len() < avail {
            buf.len()
        } else {
            avail
        };
        let mut i: usize = 0;
        while i < n
            invariant
                i <= n,
                buf@.len() == old(buf)@.len(),
                buf@ =~= unread(old(self)@).take(i as int) + old(buf)@.skip(i as int),
            decreases n - i,
        {
            buf.set(i, self.inner[start + i]);
            assert(buf@ =~= unread(old(self)@).take(i + 1) + old(buf)@.skip(i + 1));
            i = i + 1;
        }
        if n > 0 {
            self.pos_r = self.pos_r + n as u64;
        }
        assert(final(buf)@ =~= read_result(old(self)@, old(buf)@.len() as int) + old(buf)@.skip(
            n as int,
        ));
        n
    }

    /// Advance the read position by `amt` without delivering the bytes.
    pub fn consume(&mut self, amt: usize)
        requires
            old(self)@.pos_r + amt <= u64::MAX,
        ensures
            final(self)@ == (CursorModel {
                pos_r: old(self)@.pos_r + amt,
                ..old(self)@
            }),
    {
        self.pos_r = self.pos_r + amt as u64;
    }

    /// Fill all of `buf` from the unread bytes, or deliver nothing: returns
    /// `false`, changing neither the cursor nor `buf`, when fewer than
    /// `buf.len()` unread bytes are available.
    #[verifier::loop_isolation(false)]
    pub fn read_exact(&mut self, buf: &mut Vec<u8>) -> (ok: bool)
        ensures
            ok == (old(buf)@.len() <= unread(old(self)@).len()),
            ok ==> final(buf)@ == unread(old(self)@).take(old(buf)@.len() as int) && final(self)@
                == read_model(old(self)@, old(buf)@.len() as int),
            !ok ==> final(buf)@ == old(buf)@ && final(self)@ == old(self)@,
    {
        let len = self.inner.len();
        let start: usize = if self.pos_r < len as u64 {
            self.pos_r as usize
        } else {
            len
        };
        if buf.len() > len - start {
            return false;
        }
        let _n = self.read(buf);
        assert(final(buf)@ =~= unread(old(self)@).take(old(buf)@.len() as int));
        true
    }

    /// Drain unread bytes into a row of buffers, filling each in turn from
    /// the front, until the buffers or the unread bytes run out: the total
    /// number of bytes delivered is returned.
    #[verifier::loop_isolation(false)]
    pub fn read_vectored(&mut self, bufs: &mut Vec<Vec<u8>>) -> (nread: usize)
        ensures
            nread == read_amount(old(self)@, total_len(views(old(bufs)@))),
            views(final(bufs)@) == scatter(unread(old(self)@), views(old(bufs)@)),
            final(self)@ == read_model(old(self)@, total_len(views(old(bufs)@))),
    {
        let ghost bytes0 = unread(old(self)@);
        let ghost b0 = views(old(bufs)@);
        let len0 = self.inner.len();
        proof {
            assert(bytes0.len() <= len0 as int);
            assert(b0.skip(0) =~~= b0);
            assert(views(bufs@).take(0) + scatter(bytes0, b0) =~~= scatter(bytes0, b0));
            assert(bytes0.skip(0) =~~= bytes0);
        }
        let mut nread: usize = 0;
        let mut j: usize = 0;
        while j < bufs.len()
            invariant
                j <= bufs@.len(),
                bufs@.len() == b0.len(),
                views(bufs@).skip(j as int) == b0.skip(j as int),
                scatter(bytes0, b0) == views(bufs@).take(j as int) + scatter(
                    unread(self@),
                    b0.skip(j as int),
                ),
                nread == min(total_len(b0.take(j as int)), bytes0.len() as int),
                nread <= bytes0.len(),
                unread(self@) == bytes0.skip(nread as int),
                self@ == (CursorModel { pos_r: old(self)@.pos_r + nread, ..old(self)@ }),
            decreases bufs@.len() - j,
        {
            let ghost jj = j as int;
            let ghost pre = self@;
            let ghost u_pre = unread(self@);
            let ghost prevec = bufs@;
            let mut b = bufs.remove(j);
            let n = self.read(&mut b);
            let ghost k = n as int;
            let ghost bview = b@;
            bufs.insert(j, b);
            proof {
                assert(views(prevec).skip(jj)[0] == b0.skip(jj)[0]);
                assert(prevec[jj]@ == b0[jj]);
                assert(bufs@ =~= prevec.update(jj, b));
                assert(views(bufs@) =~~= views(prevec).update(jj, bview));
                assert forall|i: int| jj + 1 <= i < b0.len() implies views(bufs@)[i] == b0[i] by {
                    assert(views(prevec).skip(jj)[i - jj] == b0.skip(jj)[i - jj]);
                }
                assert(views(bufs@).skip(jj + 1) =~~= b0.skip(jj + 1));
                assert(unread(self@) =~= u_pre.skip(k));
                assert(scatter(u_pre, b0.skip(jj)) =~~= seq![u_pre.take(k) + b0[jj].skip(k)]
                    + scatter(u_pre.skip(k), b0.skip(jj + 1))) by {
                    assert(b0.skip(jj)[0] == b0[jj]);
                    assert(b0.skip(jj).drop_first() =~~= b0.skip(jj + 1));
                }
                assert(bview =~= u_pre.take(k) + b0[jj].skip(k));
                assert(views(bufs@).take(jj + 1) =~~= views(prevec).take(jj).push(bview));
                assert(views(bufs@).take(jj + 1) + scatter(unread(self@), b0.skip(jj + 1))
                    =~~= views(prevec).take(jj) + (seq![bview] + scatter(
                    u_pre.skip(k),
                    b0.skip(jj + 1),
                )));
                assert(scatter(bytes0, b0) =~~= views(bufs@).take(jj + 1) + scatter(
                    unread(self@),
                    b0.skip(jj + 1),
                ));
                lemma_total_len_push(b0.take(jj), b0[jj]);
                assert(b0.take(jj).push(b0[jj]) =~~= b0.take(jj + 1));
                assert(nread + k == min(total_len(b0.take(jj + 1)), bytes0.len() as int));
                assert(nread + k <= bytes0.len());
            }
            nread = nread + n;
            j = j + 1;
        }
        proof {
            assert(views(bufs@).take(bufs@.len() as int) =~~= views(bufs@));
            assert(b0.take(b0.len() as int) =~~= b0);
            assert(scatter(unread(self@), b0.skip(b0.len() as int)).len() == 0);
            assert(views(bufs@) =~~= scatter(bytes0, b0));
        }
        nread
    }

    /// Append-or-overwrite `buf` at the write position and advance it.
    pub fn write(&mut self, buf: &[u8]) -> (amt: usize)
        requires
            old(self)@.pos_w + buf@.len() <= usize::MAX,
        ensures
            amt == buf@.len(),
            final(self)@ == write_model(old(self)@, buf@),
    {
        let amt = vec_write(&mut self.pos_w, &mut self.inner, buf);
        amt
    }
}

/// Write `buf` into the fixed-size buffer `slice` at position `*pos_mut`,
/// without growing it: at most the space left after the (clamped) position
/// is written, and the number of bytes actually written is returned and
/// added to the position.
#[verifier::loop_isolation(false)]
pub fn slice_write(pos_mut: &mut u64, slice: &mut Vec<u8>, buf: &[u8]) -> (amt: usize)
    ensures
        amt == min(
            buf@.len() as int,
            old(slice)@.len() - min(*old(pos_mut) as int, old(slice)@.len() as int),
        ),
        *final(pos_mut) == *old(pos_mut) + amt,
        final(slice)@ == slice_written(old(slice)@, *old(pos_mut) as int, buf@),
{
    let len = slice.len();
    let pos: usize = if *pos_mut < len as u64 {
        *pos_mut as usize
    } else {
        len
    };
    let space = len - pos;
    let amt = if buf.len() < space {
        buf.len()
    } else {
        space
    };
    let mut i: usize = 0;
    while i < amt
        invariant
            i <= amt,
            amt == min(buf@.len() as int, slice@.len() - pos),
            pos + amt <= slice@.len(),
            amt <= buf@.len(),
            slice@.len() == old(slice)@.len(),
            slice@ =~= old(slice)@.take(pos as int) + buf@.take(i as int) + old(
                slice,
            )@.skip(pos + i),
        decreases amt - i,
    {
        slice.set(pos + i, buf[i]);
        assert(slice@ =~= old(slice)@.take(pos as int) + buf@.take(i + 1) + old(slice)@.skip(
            pos + i + 1,
        ));
        i = i + 1;
    }
    *pos_mut = *pos_mut + amt as u64;
    assert(final(slice)@ =~= slice_written(old(slice)@, *old(pos_mut) as int, buf@));
    amt
}

/// The fixed-size buffer `data` after writing `buf` at position `pos`:
/// the position is clamped to the length, and the write is cut off at the
/// end of the buffer.
pub open spec fn slice_written(data: Seq<u8>, pos: int, buf: Seq<u8>) -> Seq<u8> {
    let p = min(pos, data.len() as int);
    let amt = min(buf.len() as int, data.len() - p);
    data.take(p) + buf.take(amt) + data.skip(p + amt)
}

/// Write `buf` into the growable buffer `vec` at position `*pos_mut`,
/// zero-padding up to the position if the buffer is shorter and growing it
/// at the end as needed; the whole buffer is always written.
#[verifier::loop_isolation(false)]
pub fn vec_write(pos_mut: &mut u64, vec: &mut Vec<u8>, buf: &[u8]) -> (amt: usize)
    requires
        *old(pos_mut) + buf@.len() <= usize::MAX,
    ensures
        amt == buf@.len(),
        *final(pos_mut) == *old(pos_mut) + buf@.len(),
        final(vec)@ == vec_written(old(vec)@, *old(pos_mut) as int, buf@),
{
    let pos = *pos_mut as usize;
    while vec.len() < pos
        invariant
            vec@.len() <= pos || vec@.len() == old(vec)@.len(),
            vec@ =~= old(vec)@ + zeros((vec@.len() - old(vec)@.len()) as nat),
        decreases pos - vec@.len(),
    {
        vec.push(0u8);
        assert(vec@ =~= old(vec)@ + zeros((vec@.len() - old(vec)@.len()) as nat));
    }
    let ghost padded = if pos > old(vec)@.len() {
        old(vec)@ + zeros((pos - old(vec)@.len()) as nat)
    } else {
        old(vec)@
    };
    assert(vec@ =~= padded);
    let mut i: usize = 0;
    while i < buf.len() && pos + i < vec.len()
        invariant
            i <= buf@.len(),
            pos + i <= vec@.len(),
            vec@.len() == padded.len(),
            pos <= padded.len(),
            vec@ =~= padded.take(pos as int) + buf@.take(i as int) + padded.skip(pos + i),
        decreases buf@.len() - i,
    {
        vec.set(pos + i, buf[i]);
        assert(vec@ =~= padded.take(pos as int) + buf@.take(i + 1) + padded.skip(pos + i + 1));
        i = i + 1;
    }
    while i < buf.len()
        invariant
            i <= buf@.len(),
            i == buf@.len() || pos + i >= padded.len(),
            pos <= padded.len(),
            vec@ =~= padded.take(pos as int) + buf@.take(i as int) + padded.skip(
                min(pos + i, padded.len() as int),
            ),
        decreases buf@.len() - i,
    {
        vec.push(buf[i]);
        assert(vec@ =~= padded.take(pos as int) + buf@.take(i + 1) + padded.skip(
            min(pos + i + 1, padded.len() as int),
        ));
        i = i + 1;
    }
    *pos_mut = (pos + buf.len()) as u64;
    assert(final(vec)@ =~= vec_written(old(vec)@, *old(pos_mut) as int, buf@));
    buf.len()
}

} // verus!
