use vstd::prelude::*;
use async_std::io::Cursor;
use std::io::{Error, SeekFrom};
use std::marker::PhantomPinned;
use crate::laws::{lemma_split_read, lemma_split_write};

verus! {

#[verifier::external_type_specification]
#[verifier::external_body]
#[verifier::reject_recursive_types(T)]
pub struct ExCursor<T>(Cursor<T>);

#[verifier::external_type_specification]
#[verifier::external_body]
pub struct ExPhantomPinned(PhantomPinned);

#[verifier::external_type_specification]
#[verifier::external_body]
pub struct ExIoError(Error);

#[verifier::external_type_specification]
pub struct ExSeekFrom(SeekFrom);

/// The offset that seeking by `from` aims at, from a cursor at `pos` over
/// `len` bytes. It may fall outside the range of `u64`.
pub open spec fn seek_target(len: nat, pos: u64, from: SeekFrom) -> int {
    match from {
        SeekFrom::Start(n) => n as int,
        SeekFrom::End(d) => len + d,
        SeekFrom::Current(d) => pos + d,
    }
}

/// Whether a seek target is an offset a cursor can take.
pub open spec fn valid_offset(t: int) -> bool {
    0 <= t <= u64::MAX
}

/// Where a read from offset `pos` starts: reading past the end reads nothing.
pub open spec fn read_start(bytes: Seq<u8>, pos: int) -> int {
    if pos < bytes.len() { pos } else { bytes.len() as int }
}

/// How many bytes a read of at most `n` bytes from offset `pos` yields.
pub open spec fn read_len(bytes: Seq<u8>, pos: int, n: nat) -> nat {
    let avail = (bytes.len() - read_start(bytes, pos)) as nat;
    if n < avail { n } else { avail }
}

/// The bytes that a read of at most `n` bytes from offset `pos` yields.
pub open spec fn read_bytes(bytes: Seq<u8>, pos: int, n: nat) -> Seq<u8> {
    let s = read_start(bytes, pos);
    bytes.subrange(s, s + read_len(bytes, pos, n))
}

/// The bytes after `data` is written at offset `pos`: `data` replaces what
/// stood there, the sequence grows where `data` runs past its end, and a gap
/// between the old end and `pos` is filled with zeros.
pub open spec fn written(bytes: Seq<u8>, pos: int, data: Seq<u8>) -> Seq<u8> {
    let end = pos + data.len();
    let len = if end < bytes.len() { bytes.len() as int } else { end };
    Seq::new(len as nat, |i: int|
        if pos <= i < end {
            data[i - pos]
        } else if i < bytes.len() {
            bytes[i]
        } else {
            0u8
        })
}

/// The segments' bytes, one after another.
pub open spec fn concat(segs: Seq<Vec<u8>>) -> Seq<u8>
    decreases segs.len(),
{
    if segs.len() == 0 {
        Seq::empty()
    } else {
        concat(segs.drop_last()) + segs.last()@
    }
}

/// The first `i + 1` segments hold the first `i` and then segment `i`.
pub proof fn lemma_concat_prefix_step(segs: Seq<Vec<u8>>, i: int)
    requires
        0 <= i < segs.len(),
    ensures
        concat(segs.subrange(0, i + 1)) == concat(segs.subrange(0, i)) + segs[i]@,
{
    assert(segs.subrange(0, i + 1).drop_last() =~= segs.subrange(0, i));
}

/// A prefix of the segments holds no more bytes than all of them.
pub proof fn lemma_concat_prefix_len(segs: Seq<Vec<u8>>, i: int)
    requires
        0 <= i <= segs.len(),
    ensures
        concat(segs.subrange(0, i)).len() <= concat(segs).len(),
    decreases segs.len() - i,
{
    if i < segs.len() {
        lemma_concat_prefix_step(segs, i);
        lemma_concat_prefix_len(segs, i + 1);
    } else {
        assert(segs.subrange(0, i) =~= segs);
    }
}

/// The bytes that a cursor over a vector holds.
pub uninterp spec fn cursor_bytes(c: Cursor<Vec<u8>>) -> Seq<u8>;

/// The offset at which a cursor over a vector reads and writes next.
pub uninterp spec fn cursor_pos(c: Cursor<Vec<u8>>) -> u64;

/// Relies on `async_std::io::Cursor::position`, which returns the inner
/// `std::io::Cursor`'s position.
#[verifier::external_body]
fn cursor_position(c: &Cursor<Vec<u8>>) -> (r: u64)
    ensures
        r == cursor_pos(*c),
{
    c.position()
}

/// Relies on `async_std::io::Cursor::set_position`, which sets the position
/// and leaves the bytes alone.
#[verifier::external_body]
fn cursor_set_position(c: &mut Cursor<Vec<u8>>, pos: u64)
    ensures
        cursor_pos(*final(c)) == pos,
        cursor_bytes(*final(c)) == cursor_bytes(*old(c)),
{
    c.set_position(pos)
}

/// Relies on `async_std::io::SeekExt::seek`, driven by `async_std::task::block_on`, on a `Cursor`, which completes at
/// once with `std::io::Cursor::seek`: the position becomes the target when it is
/// neither negative nor past `u64::MAX`, and is otherwise left as it was with an
/// error. The bytes do not change.
#[verifier::external_body]
fn cursor_seek(c: &mut Cursor<Vec<u8>>, from: SeekFrom) -> (r: Result<u64, Error>)
    ensures
        cursor_bytes(*final(c)) == cursor_bytes(*old(c)),
        ({
            let t = seek_target(cursor_bytes(*old(c)).len(), cursor_pos(*old(c)), from);
            if valid_offset(t) {
                r is Ok && r->Ok_0 == t && cursor_pos(*final(c)) == t
            } else {
                r.is_err() && cursor_pos(*final(c)) == cursor_pos(*old(c))
            }
        }),
{
    async_std::task::block_on(async_std::io::SeekExt::seek(c, from))
}

/// Relies on `async_std::io::ReadExt::read`, driven by `async_std::task::block_on`, on a `Cursor`, which completes at
/// once with `std::io::Cursor::read`: it copies as many bytes as fit from the
/// position on into the front of `buf`, never fails, and advances the position
/// by the count.
#[verifier::external_body]
fn cursor_read(c: &mut Cursor<Vec<u8>>, buf: &mut [u8]) -> (r: Result<usize, Error>)
    ensures
        ({
            let b = cursor_bytes(*old(c));
            let p = cursor_pos(*old(c)) as int;
            let k = read_len(b, p, old(buf)@.len());
            &&& r is Ok && r->Ok_0 == k
            &&& final(buf)@ == read_bytes(b, p, old(buf)@.len()) + old(buf)@.subrange(k as int, old(buf)@.len() as int)
            &&& cursor_pos(*final(c)) == p + k
            &&& cursor_bytes(*final(c)) == b
        }),
{
    async_std::task::block_on(async_std::io::ReadExt::read(c, buf))
}

/// Relies on `async_std::io::WriteExt::write`, driven by `async_std::task::block_on`, on a `Cursor<Vec<u8>>`, which
/// completes at once with `std::io::Cursor::write`: the whole of `buf` is
/// written at the position (padding with zeros up to it) and the position
/// advances past it. A vector can hold at most `isize::MAX` bytes.
#[verifier::external_body]
fn cursor_write(c: &mut Cursor<Vec<u8>>, buf: &[u8]) -> (r: Result<usize, Error>)
    requires
        cursor_pos(*old(c)) + buf@.len() <= isize::MAX,
    ensures
        r is Ok && r->Ok_0 == buf@.len(),
        cursor_bytes(*final(c)) == written(cursor_bytes(*old(c)), cursor_pos(*old(c)) as int, buf@),
        cursor_pos(*final(c)) == cursor_pos(*old(c)) + buf@.len(),
{
    async_std::task::block_on(async_std::io::WriteExt::write(c, buf))
}

/// Relies on `std::marker::PhantomPinned`, a marker without state.
#[verifier::external_body]
fn pinned_marker() -> (r: PhantomPinned) {
    PhantomPinned
}

/// A byte cursor that is not `Unpin`.
///
/// The marker field makes the whole structure immovable once it is pinned;
/// the inner cursor stays an ordinary movable value.
#[verifier::reject_recursive_types(T)]
pub struct PinCursor<T> {
    c: Cursor<T>,
    _p: PhantomPinned,
}

impl<T> PinCursor<T> {
    /// The inner cursor.
    pub closed spec fn inner(&self) -> Cursor<T> {
        self.c
    }

    /// Wraps a cursor; the result is still movable until it is pinned.
    pub fn wrap(c: Cursor<T>) -> (r: Self)
        ensures
            r.inner() == c,
    {
        PinCursor { c, _p: pinned_marker() }
    }

    /// Gives the inner cursor back. Only possible while the wrapper is not pinned.
    pub fn unwrap(self) -> (r: Cursor<T>)
        ensures
            r == self.inner(),
    {
        self.c
    }
}

impl PinCursor<Vec<u8>> {
    /// The bytes held by the inner cursor.
    pub open spec fn bytes(&self) -> Seq<u8> {
        cursor_bytes(self.inner())
    }

    /// The inner cursor's current offset.
    pub open spec fn pos(&self) -> u64 {
        cursor_pos(self.inner())
    }

    /// Returns the current offset.
    pub fn position(&self) -> (r: u64)
        ensures
            r == self.pos(),
    {
        cursor_position(&self.c)
    }

    /// Moves the offset to `pos`; the bytes stay as they are.
    pub fn set_position(&mut self, pos: u64)
        ensures
            final(self).pos() == pos,
            final(self).bytes() == old(self).bytes(),
    {
        cursor_set_position(&mut self.c, pos)
    }

    /// Reads from the offset on into the front of `buf` and returns how many
    /// bytes came: as many as fit, or as remain. Advances the offset by that
    /// count; the rest of `buf` is untouched.
    pub fn read(&mut self, buf: &mut [u8]) -> (r: Result<usize, Error>)
        ensures
            ({
                let k = read_len(old(self).bytes(), old(self).pos() as int, old(buf)@.len());
                &&& r is Ok && r->Ok_0 == k
                &&& final(buf)@ == read_bytes(old(self).bytes(), old(self).pos() as int, old(buf)@.len())
                    + old(buf)@.subrange(k as int, old(buf)@.len() as int)
                &&& final(self).pos() == old(self).pos() + k
                &&& final(self).bytes() == old(self).bytes()
            }),
    {
        cursor_read(&mut self.c, buf)
    }

    /// Writes all of `buf` at the offset and advances the offset past it.
    pub fn write(&mut self, buf: &[u8]) -> (r: Result<usize, Error>)
        requires
            old(self).pos() + buf@.len() <= isize::MAX,
        ensures
            r is Ok && r->Ok_0 == buf@.len(),
            final(self).bytes() == written(old(self).bytes(), old(self).pos() as int, buf@),
            final(self).pos() == old(self).pos() + buf@.len(),
    {
        cursor_write(&mut self.c, buf)
    }

    /// Writes the segments one after another at the offset, as that many
    /// single writes would, and returns how many bytes were written in all.
    pub fn write_vectored(&mut self, bufs: &[Vec<u8>]) -> (r: Result<usize, Error>)
        requires
            old(self).pos() + concat(bufs@).len() <= isize::MAX,
        ensures
            r is Ok && r->Ok_0 == concat(bufs@).len(),
            final(self).bytes() == written(old(self).bytes(), old(self).pos() as int, concat(bufs@)),
            final(self).pos() == old(self).pos() + concat(bufs@).len(),
    {
        let ghost b0 = self.bytes();
        let ghost p0 = self.pos();
        if bufs.len() == 0 {
            let none: Vec<u8> = Vec::new();
            return self.write(none.as_slice());
        }
        let mut total: usize = 0;
        let mut i: usize = 0;
        while i < bufs.len()
            invariant
                0 < bufs.len(),
                i <= bufs.len(),
                p0 + concat(bufs@).len() <= isize::MAX,
                total == concat(bufs@.subrange(0, i as int)).len(),
                self.pos() == p0 + total,
                i == 0 ==> self.bytes() == b0,
                i > 0 ==> self.bytes() == written(b0, p0 as int, concat(bufs@.subrange(0, i as int))),
            decreases bufs.len() - i,
        {
            proof {
                lemma_concat_prefix_step(bufs@, i as int);
                lemma_concat_prefix_len(bufs@, i + 1);
                if i > 0 {
                    lemma_split_write(b0, p0, concat(bufs@.subrange(0, i as int)), bufs@[i as int]@);
                } else {
                    assert(concat(bufs@.subrange(0, 1)) =~= bufs@[0]@);
                }
            }
            match self.write(bufs[i].as_slice()) {
                Ok(n) => {
                    total = total + n;
                },
                Err(e) => {
                    return Err(e);
                },
            }
            i = i + 1;
        }
        proof {
            assert(bufs@.subrange(0, i as int) =~= bufs@);
        }
        Ok(total)
    }

    /// Reads into the segments one after another, as that many single reads
    /// would, and returns how many bytes came in all. The segments keep their
    /// lengths; taken together they receive what one read of their total
    /// length receives.
    pub fn read_vectored(&mut self, bufs: &mut Vec<Vec<u8>>) -> (r: Result<usize, Error>)
        requires
            concat(old(bufs)@).len() <= usize::MAX,
        ensures
            ({
                let n = concat(old(bufs)@).len();
                let k = read_len(old(self).bytes(), old(self).pos() as int, n);
                &&& r is Ok && r->Ok_0 == k
                &&& concat(final(bufs)@) == read_bytes(old(self).bytes(), old(self).pos() as int, n)
                    + concat(old(bufs)@).subrange(k as int, n as int)
                &&& final(self).pos() == old(self).pos() + k
                &&& final(self).bytes() == old(self).bytes()
            }),
            final(bufs)@.len() == old(bufs)@.len(),
            forall|j: int| 0 <= j < final(bufs)@.len() ==> #[trigger] final(bufs)@[j]@.len() == old(bufs)@[j]@.len(),
    {
        let ghost b0 = self.bytes();
        let ghost p0 = self.pos();
        let ghost segs0 = bufs@;
        let mut total: usize = 0;
        let mut i: usize = 0;
        while i < bufs.len()
            invariant
                bufs@.len() == segs0.len(),
                i <= bufs.len(),
                concat(segs0).len() <= usize::MAX,
                forall|j: int| i <= j < segs0.len() ==> #[trigger] bufs@[j] == segs0[j],
                forall|j: int| 0 <= j < segs0.len() ==> #[trigger] bufs@[j]@.len() == segs0[j]@.len(),
                self.bytes() == b0,
                total == read_len(b0, p0 as int, concat(segs0.subrange(0, i as int)).len()),
                self.pos() == p0 + total,
                concat(bufs@.subrange(0, i as int)) == read_bytes(b0, p0 as int, concat(segs0.subrange(0, i as int)).len())
                    + concat(segs0.subrange(0, i as int)).subrange(total as int, concat(segs0.subrange(0, i as int)).len() as int),
            decreases bufs.len() - i,
        {
            let ghost before = bufs@;
            let ghost prev = concat(segs0.subrange(0, i as int));
            let ghost seg0 = segs0[i as int]@;
            proof {
                lemma_concat_prefix_step(segs0, i as int);
                lemma_concat_prefix_len(segs0, i + 1);
                lemma_split_read(b0, p0, prev.len(), seg0.len());
            }
            let mut seg: Vec<u8> = Vec::new();
            bufs.set_and_swap(i, &mut seg);
            let k: usize = match self.read(seg.as_mut_slice()) {
                Ok(k) => k,
                Err(e) => {
                    return Err(e);
                },
            };
            bufs.set(i, seg);
            proof {
                assert(bufs@.subrange(0, i as int) =~= before.subrange(0, i as int));
                lemma_concat_prefix_step(bufs@, i as int);
                if (total as int) < prev.len() {
                    assert(k == 0);
                }
                assert(concat(bufs@.subrange(0, i + 1)) =~= read_bytes(b0, p0 as int, prev.len() + seg0.len())
                    + (prev + seg0).subrange(total + k, (prev.len() + seg0.len()) as int));
            }
            total = total + k;
            i = i + 1;
        }
        proof {
            assert(segs0.subrange(0, i as int) =~= segs0);
            assert(bufs@.subrange(0, i as int) =~= bufs@);
        }
        Ok(total)
    }

    /// Moves the offset as `from` says and returns the new offset. A target
    /// before the start, or past `u64::MAX`, is an error and leaves the offset
    /// where it was.
    pub fn seek(&mut self, from: SeekFrom) -> (r: Result<u64, Error>)
        ensures
            final(self).bytes() == old(self).bytes(),
            ({
                let t = seek_target(old(self).bytes().len(), old(self).pos(), from);
                if valid_offset(t) {
                    r is Ok && r->Ok_0 == t && final(self).pos() == t
                } else {
                    r.is_err() && final(self).pos() == old(self).pos()
                }
            }),
    {
        cursor_seek(&mut self.c, from)
    }
}

} // verus!
