//! Laws that hold of the cursor model, and so of every sequence of calls on a
//! `PinCursor` whose contracts are stated over it.
use vstd::prelude::*;
use std::io::SeekFrom;
use crate::cursor::{read_bytes, read_len, read_start, seek_target, valid_offset, written};

verus! {

/// Bytes written at an offset read back, unchanged and in order, from that
/// offset: a read of as many bytes as were written returns all of them.
pub proof fn lemma_write_then_read(bytes: Seq<u8>, pos: u64, data: Seq<u8>)
    ensures
        read_len(written(bytes, pos as int, data), pos as int, data.len()) == data.len(),
        read_bytes(written(bytes, pos as int, data), pos as int, data.len()) == data,
{
    let w = written(bytes, pos as int, data);
    assert(read_bytes(w, pos as int, data.len()) =~= data);
}

/// Seeking to `Start(p)` always succeeds and puts the offset at `p`.
pub proof fn lemma_seek_start(len: nat, pos: u64, p: u64)
    ensures
        valid_offset(seek_target(len, pos, SeekFrom::Start(p))),
        seek_target(len, pos, SeekFrom::Start(p)) == p,
{
}

/// A seek whose target lies before the start is refused; `seek` then leaves
/// the offset where it was.
pub proof fn lemma_seek_before_start(len: nat, pos: u64, from: SeekFrom)
    requires
        seek_target(len, pos, from) < 0,
    ensures
        !valid_offset(seek_target(len, pos, from)),
{
}

/// Reading `n1` bytes and then up to `n2` more from where the first read
/// stopped yields the same count and the same bytes, in order, as one read of
/// `n1 + n2` bytes: reading into several segments in turn is reading into
/// their concatenation.
pub proof fn lemma_split_read(bytes: Seq<u8>, pos: u64, n1: nat, n2: nat)
    ensures
        ({
            let k1 = read_len(bytes, pos as int, n1);
            &&& k1 + read_len(bytes, pos + k1, n2) == read_len(bytes, pos as int, n1 + n2)
            &&& read_bytes(bytes, pos as int, n1) + read_bytes(bytes, pos + k1, n2)
                == read_bytes(bytes, pos as int, n1 + n2)
        }),
{
    let k1 = read_len(bytes, pos as int, n1);
    let s = read_start(bytes, pos as int);
    if k1 > 0 {
        assert(read_start(bytes, pos + k1) == s + k1);
    }
    assert(read_bytes(bytes, pos as int, n1) + read_bytes(bytes, pos + k1, n2)
        =~= read_bytes(bytes, pos as int, n1 + n2));
}

/// Writing `a` and then `b` right after it leaves the same bytes as one write
/// of `a + b`: writing several segments in turn is writing their
/// concatenation.
pub proof fn lemma_split_write(bytes: Seq<u8>, pos: u64, a: Seq<u8>, b: Seq<u8>)
    ensures
        written(written(bytes, pos as int, a), pos + a.len(), b) == written(bytes, pos as int, a + b),
{
    assert(written(written(bytes, pos as int, a), pos + a.len(), b) =~= written(bytes, pos as int, a + b));
}

} // verus!
