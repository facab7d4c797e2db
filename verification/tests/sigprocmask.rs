use sigcore::error::SysError;
use sigcore::process::Process;
use sigcore::signal::Sigset;
use sigcore::syscall::{Syscall, SIG_BLOCK, SIG_SETMASK, SIG_UNBLOCK};

fn one_proc_state() -> Syscall {
    let p = Process::new(1, 1, 100);
    Syscall { processes: vec![p], caller_pid: 1, caller_tid: 100 }
}

#[test]
fn sigprocmask_block_accumulates_then_setmask_is_exact() {
    let mut s = one_proc_state();
    let s1 = Sigset { bits: 0b101 };
    let s2 = Sigset { bits: 0b110 };
    let s3 = Sigset { bits: 0b1000 };
    assert_eq!(s.sys_rt_sigprocmask(SIG_BLOCK, Some(&s1), false, 8), (None, Ok(0)));
    assert_eq!(s.sys_rt_sigprocmask(SIG_BLOCK, Some(&s2), false, 8), (None, Ok(0)));
    assert_eq!(s.processes[0].threads[0].sig_mask.bits, 0b111);
    assert_eq!(s.sys_rt_sigprocmask(SIG_SETMASK, Some(&s3), false, 8), (None, Ok(0)));
    assert_eq!(s.processes[0].threads[0].sig_mask.bits, 0b1000);
}

#[test]
fn sigprocmask_unblock_removes() {
    let mut s = one_proc_state();
    let full = Sigset { bits: 0b1111 };
    let drop2 = Sigset { bits: 0b0110 };
    s.sys_rt_sigprocmask(SIG_SETMASK, Some(&full), false, 8);
    s.sys_rt_sigprocmask(SIG_UNBLOCK, Some(&drop2), false, 8);
    assert_eq!(s.processes[0].threads[0].sig_mask.bits, 0b1001);
}

#[test]
fn sigprocmask_rejects_wrong_setsize() {
    let mut s = one_proc_state();
    let set = Sigset { bits: 1 };
    for bad in [0usize, 4, 16] {
        // The set-size check precedes the copy-out: no old mask comes back.
        assert_eq!(
            s.sys_rt_sigprocmask(SIG_BLOCK, Some(&set), true, bad),
            (None, Err(SysError::InvalidArgument))
        );
    }
    assert_eq!(s.processes[0].threads[0].sig_mask.bits, 0);
}

#[test]
fn sigprocmask_rejects_unknown_how_with_set() {
    let mut s = one_proc_state();
    let set = Sigset { bits: 1 };
    assert_eq!(
        s.sys_rt_sigprocmask(3, Some(&set), false, 8),
        (None, Err(SysError::InvalidArgument))
    );
    assert_eq!(
        s.sys_rt_sigprocmask(99, Some(&set), false, 8),
        (None, Err(SysError::InvalidArgument))
    );
    assert_eq!(s.processes[0].threads[0].sig_mask.bits, 0);
}

#[test]
fn sigprocmask_unknown_how_still_delivers_old_mask() {
    // The old mask is copied out before `how` is examined, so a caller that
    // asked for it holds the pre-call mask even though the call fails.
    let mut s = one_proc_state();
    let first = Sigset { bits: 0b11 };
    s.sys_rt_sigprocmask(SIG_SETMASK, Some(&first), false, 8);
    let bad = Sigset { bits: 0b100 };
    let (old, r) = s.sys_rt_sigprocmask(7, Some(&bad), true, 8);
    assert_eq!(r, Err(SysError::InvalidArgument));
    assert_eq!(old, Some(first));
    assert_eq!(s.processes[0].threads[0].sig_mask, first, "no partial mutation");
}

#[test]
fn sigprocmask_ignores_how_without_set() {
    let mut s = one_proc_state();
    let (old, r) = s.sys_rt_sigprocmask(99, None, true, 8);
    assert_eq!(r, Ok(0));
    assert_eq!(old, Some(Sigset { bits: 0 }));
    assert_eq!(s.processes[0].threads[0].sig_mask.bits, 0);
}

#[test]
fn sigprocmask_returns_old_mask_before_update() {
    let mut s = one_proc_state();
    let first = Sigset { bits: 0b11 };
    let second = Sigset { bits: 0b100 };
    s.sys_rt_sigprocmask(SIG_SETMASK, Some(&first), false, 8);
    let (old, r) = s.sys_rt_sigprocmask(SIG_SETMASK, Some(&second), true, 8);
    assert_eq!(r, Ok(0));
    assert_eq!(old.expect("old mask was requested"), first);
    assert_eq!(s.processes[0].threads[0].sig_mask, second);
}

#[test]
fn sigprocmask_touches_only_calling_thread() {
    let mut p = Process::new(1, 1, 100);
    p.add_thread(101);
    let mut s = Syscall { processes: vec![p], caller_pid: 1, caller_tid: 101 };
    let set = Sigset { bits: 0b10 };
    s.sys_rt_sigprocmask(SIG_BLOCK, Some(&set), false, 8);
    assert_eq!(s.processes[0].threads[0].sig_mask.bits, 0);
    assert_eq!(s.processes[0].threads[1].sig_mask.bits, 0b10);
}
