use std::io::{ErrorKind, SeekFrom};

use async_std::io::Cursor;
use pin_cursor::PinCursor;

fn empty() -> PinCursor<Vec<u8>> {
    PinCursor::wrap(Cursor::new(Vec::new()))
}

fn holding(bytes: &[u8]) -> PinCursor<Vec<u8>> {
    PinCursor::wrap(Cursor::new(bytes.to_vec()))
}

fn contents(c: PinCursor<Vec<u8>>) -> Vec<u8> {
    c.unwrap().into_inner()
}

// Compiles only when `T: Unpin` does not hold: with `Unpin` both impls would
// apply and the call below would be ambiguous.
trait AmbiguousIfUnpin<A> {
    fn check() {}
}

impl<T: ?Sized> AmbiguousIfUnpin<()> for T {}

struct WhenUnpin;

impl<T: ?Sized + Unpin> AmbiguousIfUnpin<WhenUnpin> for T {}

#[test]
fn impls() {
    <PinCursor<Vec<u8>> as AmbiguousIfUnpin<_>>::check();
}

#[test]
fn fresh_buffer_scenario() {
    let mut c = empty();
    assert_eq!(c.write(&[1u8, 2u8, 3u8]).unwrap(), 3);
    assert_eq!(c.position(), 3);
    assert_eq!(c.seek(SeekFrom::Start(1)).unwrap(), 1);
    assert_eq!(c.position(), 1);
    let mut buf = [0u8; 1];
    assert_eq!(c.read(&mut buf).unwrap(), 1);
    assert_eq!(buf[0], 2);
    c.set_position(0);
    assert_eq!(c.read(&mut buf).unwrap(), 1);
    assert_eq!(buf[0], 1);
}

#[test]
fn write_then_read_back() {
    let mut c = holding(&[9, 9, 9, 9, 9, 9]);
    c.set_position(2);
    assert_eq!(c.write(&[4, 5, 6]).unwrap(), 3);
    assert_eq!(c.position(), 5);
    c.set_position(2);
    let mut buf = [0u8; 3];
    assert_eq!(c.read(&mut buf).unwrap(), 3);
    assert_eq!(buf, [4, 5, 6]);
    assert_eq!(contents(c), vec![9, 9, 4, 5, 6, 9]);
}

#[test]
fn write_extends_past_the_end() {
    let mut c = holding(&[1, 2]);
    c.set_position(1);
    assert_eq!(c.write(&[7, 8, 9]).unwrap(), 3);
    assert_eq!(c.position(), 4);
    assert_eq!(contents(c), vec![1, 7, 8, 9]);
}

#[test]
fn write_beyond_the_end_pads_with_zeros() {
    let mut c = holding(&[1]);
    c.set_position(3);
    assert_eq!(c.write(&[5]).unwrap(), 1);
    assert_eq!(contents(c), vec![1, 0, 0, 5]);
}

#[test]
fn short_read_at_the_end() {
    let mut c = holding(&[1, 2, 3]);
    c.set_position(2);
    let mut buf = [7u8; 4];
    assert_eq!(c.read(&mut buf).unwrap(), 1);
    assert_eq!(buf, [3, 7, 7, 7]);
    assert_eq!(c.position(), 3);
    assert_eq!(c.read(&mut buf).unwrap(), 0);
    assert_eq!(c.position(), 3);
}

#[test]
fn read_past_the_end_reads_nothing() {
    let mut c = holding(&[1, 2, 3]);
    c.set_position(10);
    let mut buf = [7u8; 2];
    assert_eq!(c.read(&mut buf).unwrap(), 0);
    assert_eq!(buf, [7, 7]);
    assert_eq!(c.position(), 10);
}

#[test]
fn seek_start_then_position() {
    let mut c = holding(&[1, 2, 3, 4]);
    for p in 0..=4u64 {
        assert_eq!(c.seek(SeekFrom::Start(p)).unwrap(), p);
        assert_eq!(c.position(), p);
    }
}

#[test]
fn seek_from_end_and_current() {
    let mut c = holding(&[1, 2, 3, 4, 5]);
    assert_eq!(c.seek(SeekFrom::End(-2)).unwrap(), 3);
    assert_eq!(c.seek(SeekFrom::Current(-1)).unwrap(), 2);
    assert_eq!(c.seek(SeekFrom::Current(4)).unwrap(), 6);
    assert_eq!(c.position(), 6);
}

#[test]
fn seek_before_start_fails_and_keeps_position() {
    let mut c = holding(&[1, 2, 3]);
    c.set_position(2);
    let e = c.seek(SeekFrom::Current(-3)).unwrap_err();
    assert_eq!(e.kind(), ErrorKind::InvalidInput);
    assert_eq!(c.position(), 2);
    let e = c.seek(SeekFrom::End(-4)).unwrap_err();
    assert_eq!(e.kind(), ErrorKind::InvalidInput);
    assert_eq!(c.position(), 2);
}

#[test]
fn seek_past_u64_max_fails() {
    let mut c = empty();
    c.set_position(u64::MAX);
    assert!(c.seek(SeekFrom::Current(1)).is_err());
    assert_eq!(c.position(), u64::MAX);
}

#[test]
fn set_position_then_position() {
    let mut c = empty();
    c.set_position(42);
    assert_eq!(c.position(), 42);
    assert_eq!(contents(c), Vec::<u8>::new());
}

#[test]
fn wrap_then_unwrap_keeps_the_cursor() {
    let mut inner = Cursor::new(vec![1u8, 2, 3]);
    inner.set_position(2);
    let c = PinCursor::wrap(inner);
    assert_eq!(c.position(), 2);
    let back = c.unwrap();
    assert_eq!(back.position(), 2);
    assert_eq!(back.into_inner(), vec![1, 2, 3]);
}

#[test]
fn vectored_write_matches_single_writes() {
    let segs = vec![vec![1u8, 2], vec![], vec![3u8, 4, 5]];
    let mut a = holding(&[9, 9, 9, 9, 9, 9, 9, 9]);
    a.set_position(1);
    assert_eq!(a.write_vectored(&segs).unwrap(), 5);
    let mut b = holding(&[9, 9, 9, 9, 9, 9, 9, 9]);
    b.set_position(1);
    let mut n = 0;
    for s in &segs {
        n += b.write(s).unwrap();
    }
    assert_eq!(n, 5);
    assert_eq!(a.position(), 6);
    assert_eq!(b.position(), 6);
    assert_eq!(contents(a), vec![9, 1, 2, 3, 4, 5, 9, 9]);
    assert_eq!(contents(b), vec![9, 1, 2, 3, 4, 5, 9, 9]);
}

#[test]
fn vectored_write_without_segments_pads() {
    let mut c = holding(&[1]);
    c.set_position(3);
    assert_eq!(c.write_vectored(&[]).unwrap(), 0);
    assert_eq!(c.position(), 3);
    assert_eq!(contents(c), vec![1, 0, 0]);
}

#[test]
fn vectored_read_matches_single_reads() {
    let mut c = holding(&[1, 2, 3, 4, 5, 6]);
    c.set_position(1);
    let mut segs = vec![vec![0u8; 2], vec![0u8; 1], vec![0u8; 2]];
    assert_eq!(c.read_vectored(&mut segs).unwrap(), 5);
    assert_eq!(segs, vec![vec![2, 3], vec![4], vec![5, 6]]);
    assert_eq!(c.position(), 6);

    let mut d = holding(&[1, 2, 3, 4, 5, 6]);
    d.set_position(1);
    let mut flat = [0u8; 5];
    assert_eq!(d.read(&mut flat).unwrap(), 5);
    assert_eq!(flat, [2, 3, 4, 5, 6]);
}

#[test]
fn vectored_read_stops_short_at_the_end() {
    let mut c = holding(&[1, 2, 3]);
    let mut segs = vec![vec![7u8; 2], vec![7u8; 2], vec![7u8; 1]];
    assert_eq!(c.read_vectored(&mut segs).unwrap(), 3);
    assert_eq!(segs, vec![vec![1, 2], vec![3, 7], vec![7]]);
    assert_eq!(c.position(), 3);
}
