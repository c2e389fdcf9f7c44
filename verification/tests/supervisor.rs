use prism_host::process::ProcState;
use prism_host::process::Process;

#[test]
fn fresh_process_shape() {
    let p = Process::new(0x80);
    assert_eq!(p.buf_mem_addr(), 0x80);
    assert_eq!(p.child_count(), 0);
    assert_eq!(p.state(), ProcState::Created);
}

#[test]
fn begin_tick_starts_running() {
    let mut p = Process::new(0x80);
    p.begin_tick();
    assert_eq!(p.state(), ProcState::Running);
    assert_eq!(p.buf_mem_addr(), 0x80);
    p.begin_tick();
    assert_eq!(p.state(), ProcState::Running);
}

#[test]
fn failed_spawn_returns_zero_and_changes_nothing() {
    let mut p = Process::new(0x80);
    p.handle_spawn(Some(Process::new(0x80)));
    let h = p.handle_spawn(None);
    assert_eq!(h, 0);
    assert_eq!(p.child_count(), 1);
}

#[test]
fn spawn_handles_are_one_based_and_in_order() {
    let mut p = Process::new(0x80);
    let h1 = p.handle_spawn(Some(Process::new(1)));
    let h2 = p.handle_spawn(Some(Process::new(2)));
    let h3 = p.handle_spawn(Some(Process::new(3)));
    assert_eq!((h1, h2, h3), (1, 2, 3));
    assert_eq!(p.child_count(), 3);
    // the row is in creation order: handle k names position k - 1
    let c1 = p.take_child(0);
    assert_eq!(c1.buf_mem_addr(), 1);
    let (next, ended) = p.after_child_tick(0, c1, 0);
    assert_eq!(next, 1);
    assert!(ended.is_none());
    let c2 = p.take_child(1);
    assert_eq!(c2.buf_mem_addr(), 2);
    p.after_child_tick(1, c2, 0);
    let c3 = p.take_child(2);
    assert_eq!(c3.buf_mem_addr(), 3);
    p.after_child_tick(2, c3, 0);
    assert_eq!(p.child_count(), 3);
}

#[test]
fn status_zero_keeps_child_across_repeated_ticks() {
    let mut p = Process::new(0x80);
    p.handle_spawn(Some(Process::new(7)));
    for _ in 0..5 {
        let c = p.take_child(0);
        let (next, ended) = p.after_child_tick(0, c, 0);
        assert_eq!(next, 1);
        assert!(ended.is_none());
        assert_eq!(p.child_count(), 1);
    }
    assert_eq!(p.take_child(0).buf_mem_addr(), 7);
}

#[test]
fn exited_child_is_removed_and_sibling_not_skipped() {
    let mut p = Process::new(0x80);
    p.handle_spawn(Some(Process::new(1)));
    p.handle_spawn(Some(Process::new(2)));
    p.handle_spawn(Some(Process::new(3)));
    // child 0 continues
    let c = p.take_child(0);
    let (next, _) = p.after_child_tick(0, c, 0);
    assert_eq!(next, 1);
    // child 1 exits with a nonzero status
    let c = p.take_child(next);
    assert_eq!(c.buf_mem_addr(), 2);
    let (next, ended) = p.after_child_tick(next, c, 9);
    assert_eq!(next, 1);
    let gone = ended.expect("an exited child is handed out");
    assert_eq!(gone.state(), ProcState::Terminated);
    assert_eq!(gone.buf_mem_addr(), 2);
    // the sibling that followed is reached at the same position
    let c = p.take_child(next);
    assert_eq!(c.buf_mem_addr(), 3);
    let (next, _) = p.after_child_tick(next, c, 0);
    assert_eq!(next, 2);
    assert_eq!(p.child_count(), 2);
    assert_eq!(p.take_child(0).buf_mem_addr(), 1);
}

#[test]
fn stdout_drains_in_write_order_across_reads() {
    let mut p = Process::new(0x80);
    p.pipe_write(&vec![1u8, 2]);
    p.pipe_write(&vec![3u8, 4, 5]);
    let first = p.read_stdout(3);
    assert_eq!(first, vec![1u8, 2, 3]);
    let second = p.read_stdout(100);
    assert_eq!(second, vec![4u8, 5]);
    let third = p.read_stdout(8);
    assert_eq!(third, Vec::<u8>::new());
}

#[test]
fn stdout_on_empty_pipe_is_empty() {
    let mut p = Process::new(0x80);
    assert_eq!(p.read_stdout(64), Vec::<u8>::new());
}

#[test]
fn stdout_never_delivers_twice() {
    let mut p = Process::new(0x80);
    p.pipe_write(&vec![42u8]);
    assert_eq!(p.read_stdout(1), vec![42u8]);
    assert_eq!(p.read_stdout(1), Vec::<u8>::new());
}
