use prism_host::BUFFER_HEIGHT;
use prism_host::BUFFER_LEN;
use prism_host::BUFFER_WIDTH;
use prism_host::bridge::copy_frame_out;
use prism_host::bridge::range_check;
use prism_host::bridge::read_region;
use prism_host::bridge::write_region;

#[test]
fn framebuffer_is_one_byte_per_cell() {
    assert_eq!(BUFFER_WIDTH, 336);
    assert_eq!(BUFFER_HEIGHT, 144);
    assert_eq!(BUFFER_LEN, 336 * 144);
}

#[test]
fn range_check_accepts_inside_and_refuses_outside() {
    assert!(range_check(10, 0, 10));
    assert!(range_check(10, 9, 1));
    assert!(range_check(10, 10, 0));
    assert!(!range_check(10, 9, 2));
    assert!(!range_check(10, 11, 0));
    // the end of the range must not wrap around
    assert!(!range_check(u64::MAX, u64::MAX, u64::MAX));
}

#[test]
fn read_region_copies_exactly() {
    let mem = vec![0u8, 1, 2, 3, 4, 5];
    assert_eq!(read_region(&mem, 2, 3), Some(vec![2u8, 3, 4]));
    assert_eq!(read_region(&mem, 0, 0), Some(Vec::new()));
    assert_eq!(read_region(&mem, 6, 0), Some(Vec::new()));
}

#[test]
fn read_region_refuses_out_of_range() {
    let mem = vec![0u8; 4];
    assert_eq!(read_region(&mem, 2, 3), None);
    assert_eq!(read_region(&mem, 5, 0), None);
}

#[test]
fn write_region_overwrites_in_place() {
    let mut mem = vec![0u8; 6];
    assert!(write_region(&mut mem, 2, &vec![7u8, 8]));
    assert_eq!(mem, vec![0u8, 0, 7, 8, 0, 0]);
}

#[test]
fn write_region_refuses_out_of_range_and_changes_nothing() {
    let mut mem = vec![1u8; 4];
    assert!(!write_region(&mut mem, 3, &vec![7u8, 8]));
    assert_eq!(mem, vec![1u8; 4]);
}

#[test]
fn copy_frame_out_reads_the_reserved_region() {
    let addr: usize = 0x80;
    let mut mem = vec![0u8; addr + BUFFER_LEN + 16];
    mem[addr] = 11;
    mem[addr + BUFFER_LEN - 1] = 22;
    let mut frame = vec![0u8; BUFFER_LEN];
    assert!(copy_frame_out(&mem, addr as u64, &mut frame));
    assert_eq!(frame[0], 11);
    assert_eq!(frame[BUFFER_LEN - 1], 22);
}

#[test]
fn copy_frame_out_refuses_bad_frame_or_range() {
    let mem = vec![0u8; BUFFER_LEN + 4];
    let mut short_frame = vec![0u8; 10];
    assert!(!copy_frame_out(&mem, 0, &mut short_frame));
    assert_eq!(short_frame, vec![0u8; 10]);
    let mut frame = vec![0u8; BUFFER_LEN];
    assert!(!copy_frame_out(&mem, 5, &mut frame));
}
