use prism_host::rw_cursor::RwCursor;
use prism_host::rw_cursor::slice_write;
use prism_host::rw_cursor::vec_write;

#[test]
fn fresh_cursor_is_drained() {
    let c = RwCursor::new(Vec::new());
    assert!(c.is_empty_read());
    assert_eq!(c.remaining_slice_read(), &[] as &[u8]);
}

#[test]
fn cursor_over_preloaded_bytes() {
    let c = RwCursor::new(vec![1u8, 2, 3]);
    assert!(!c.is_empty_read());
    assert_eq!(c.remaining_slice_read(), &[1u8, 2, 3]);
}

#[test]
fn write_then_read_round_trip() {
    let mut c = RwCursor::new(Vec::new());
    assert_eq!(c.write(&[10u8, 20, 30]), 3);
    let mut buf = vec![0u8; 3];
    assert_eq!(c.read(&mut buf), 3);
    assert_eq!(buf, vec![10u8, 20, 30]);
    assert!(c.is_empty_read());
}

#[test]
fn read_on_empty_pipe_returns_zero_without_blocking() {
    let mut c = RwCursor::new(Vec::new());
    let mut buf = vec![9u8; 4];
    assert_eq!(c.read(&mut buf), 0);
    assert_eq!(buf, vec![9u8; 4]);
}

#[test]
fn two_writes_drain_in_order_across_reads() {
    let mut c = RwCursor::new(Vec::new());
    c.write(&[1u8, 2]);
    c.write(&[3u8, 4, 5]);
    let mut first = vec![0u8; 3];
    assert_eq!(c.read(&mut first), 3);
    assert_eq!(first, vec![1u8, 2, 3]);
    let mut second = vec![0u8; 10];
    assert_eq!(c.read(&mut second), 2);
    assert_eq!(&second[..2], &[4u8, 5]);
    let mut third = vec![0u8; 1];
    assert_eq!(c.read(&mut third), 0);
}

#[test]
fn short_read_delivers_available_prefix() {
    let mut c = RwCursor::new(vec![7u8, 8, 9]);
    let mut buf = vec![0u8; 2];
    assert_eq!(c.read(&mut buf), 2);
    assert_eq!(buf, vec![7u8, 8]);
    assert_eq!(c.remaining_slice_read(), &[9u8]);
}

#[test]
fn consume_skips_bytes() {
    let mut c = RwCursor::new(vec![1u8, 2, 3, 4]);
    c.consume(3);
    assert_eq!(c.remaining_slice_read(), &[4u8]);
}

#[test]
fn read_exact_all_or_nothing() {
    let mut c = RwCursor::new(vec![5u8, 6]);
    let mut big = vec![0u8; 3];
    assert!(!c.read_exact(&mut big));
    assert_eq!(big, vec![0u8; 3]);
    assert_eq!(c.remaining_slice_read(), &[5u8, 6]);
    let mut fit = vec![0u8; 2];
    assert!(c.read_exact(&mut fit));
    assert_eq!(fit, vec![5u8, 6]);
    assert!(c.is_empty_read());
}

#[test]
fn read_vectored_fills_buffers_in_turn() {
    let mut c = RwCursor::new(vec![1u8, 2, 3, 4, 5]);
    let mut bufs = vec![vec![0u8; 2], vec![0u8; 2], vec![0u8; 4]];
    assert_eq!(c.read_vectored(&mut bufs), 5);
    assert_eq!(bufs[0], vec![1u8, 2]);
    assert_eq!(bufs[1], vec![3u8, 4]);
    assert_eq!(bufs[2], vec![5u8, 0, 0, 0]);
    assert!(c.is_empty_read());
}

#[test]
fn clone_keeps_positions() {
    let mut c = RwCursor::new(vec![1u8, 2, 3]);
    let mut buf = vec![0u8; 1];
    c.read(&mut buf);
    let mut d = c.clone();
    assert_eq!(d.remaining_slice_read(), &[2u8, 3]);
    let mut rest = vec![0u8; 2];
    assert_eq!(d.read(&mut rest), 2);
    assert_eq!(rest, vec![2u8, 3]);
    assert_eq!(c.remaining_slice_read(), &[2u8, 3]);
}

#[test]
fn vec_write_appends_at_end() {
    let mut pos: u64 = 3;
    let mut v = vec![1u8, 2, 3];
    assert_eq!(vec_write(&mut pos, &mut v, &[4u8, 5]), 2);
    assert_eq!(v, vec![1u8, 2, 3, 4, 5]);
    assert_eq!(pos, 5);
}

#[test]
fn vec_write_overwrites_middle_and_extends() {
    let mut pos: u64 = 1;
    let mut v = vec![1u8, 2, 3];
    assert_eq!(vec_write(&mut pos, &mut v, &[8u8, 9, 10]), 3);
    assert_eq!(v, vec![1u8, 8, 9, 10]);
    assert_eq!(pos, 4);
}

#[test]
fn vec_write_pads_with_zeros_past_end() {
    let mut pos: u64 = 5;
    let mut v = vec![1u8, 2];
    assert_eq!(vec_write(&mut pos, &mut v, &[7u8]), 1);
    assert_eq!(v, vec![1u8, 2, 0, 0, 0, 7]);
    assert_eq!(pos, 6);
}

#[test]
fn slice_write_cuts_off_at_end() {
    let mut pos: u64 = 2;
    let mut v = vec![1u8, 2, 3, 4];
    assert_eq!(slice_write(&mut pos, &mut v, &[8u8, 9, 10]), 2);
    assert_eq!(v, vec![1u8, 2, 8, 9]);
    assert_eq!(pos, 4);
    assert_eq!(slice_write(&mut pos, &mut v, &[11u8]), 0);
    assert_eq!(v, vec![1u8, 2, 8, 9]);
    assert_eq!(pos, 4);
}
