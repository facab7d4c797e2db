use sigcore::error::SysError;
use sigcore::process::Process;
use sigcore::signal::{Sigset, SIGTERM, SIGUSR1};
use sigcore::syscall::Syscall;

const SIGTERM_BIT: u64 = 1 << (SIGTERM - 1);

fn state() -> Syscall {
    let caller = Process::new(1, 1, 100);
    let mut multi = Process::new(2, 2, 200);
    multi.add_thread(201);
    multi.add_thread(202);
    Syscall { processes: vec![caller, multi], caller_pid: 1, caller_tid: 100 }
}

#[test]
fn tkill_missing_thread_returns_no_such_process() {
    let mut s = state();
    assert_eq!(s.sys_tkill(999, SIGTERM), Err(SysError::NoSuchProcess));
    for t in &s.processes[1].threads {
        assert_eq!(t.sig_pending.bits, 0);
    }
}

#[test]
fn tkill_ignores_threads_of_stale_processes() {
    let mut s = state();
    s.processes[1].alive = false;
    assert_eq!(s.sys_tkill(201, SIGTERM), Err(SysError::NoSuchProcess));
    assert_eq!(s.processes[1].threads[1].sig_pending.bits, 0);
}

#[test]
fn tkill_signals_only_the_named_thread() {
    let mut s = state();
    assert_eq!(s.sys_tkill(201, SIGTERM), Ok(0));
    assert_eq!(s.processes[1].threads[0].sig_pending.bits, 0);
    assert_eq!(s.processes[1].threads[1].sig_pending.bits, SIGTERM_BIT);
    assert_eq!(s.processes[1].threads[2].sig_pending.bits, 0);
    assert_eq!(s.processes[0].threads[0].sig_pending.bits, 0);
}

#[test]
fn tkill_rejects_unknown_signal() {
    let mut s = state();
    assert_eq!(s.sys_tkill(201, 0), Err(SysError::InvalidArgument));
    assert_eq!(s.sys_tkill(201, 65), Err(SysError::InvalidArgument));
    assert_eq!(s.processes[1].threads[1].sig_pending.bits, 0);
}

#[test]
fn tkill_marks_pending_even_on_a_blocking_thread() {
    let mut s = state();
    s.processes[1].threads[1].sig_mask = Sigset { bits: SIGTERM_BIT };
    assert_eq!(s.sys_tkill(201, SIGTERM), Ok(0));
    assert_eq!(s.processes[1].threads[1].sig_pending.bits, SIGTERM_BIT);
    assert_eq!(s.processes[1].threads[0].sig_pending.bits, 0);
}

#[test]
fn tkill_wakes_the_named_thread_only() {
    let mut s = state();
    s.processes[1].threads[1].waiting = true;
    s.processes[1].threads[2].waiting = true;
    assert_eq!(s.sys_tkill(201, SIGUSR1), Ok(0));
    assert!(!s.processes[1].threads[1].waiting);
    assert!(s.processes[1].threads[2].waiting);
}
