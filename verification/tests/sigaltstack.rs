use sigcore::error::SysError;
use sigcore::process::Process;
use sigcore::signal::{SignalStack, SS_AUTODISARM, SS_DISABLE, SS_ONSTACK};
use sigcore::syscall::Syscall;

fn one_proc_state() -> Syscall {
    let p = Process::new(1, 1, 100);
    Syscall { processes: vec![p], caller_pid: 1, caller_tid: 100 }
}

#[test]
fn sigaltstack_small_disabled_stack_is_out_of_memory() {
    let mut s = one_proc_state();
    let ss = SignalStack { sp: 0x7000_0000, flags: SS_DISABLE, size: 1024 };
    assert_eq!(
        s.sys_sigaltstack(Some(&ss), false),
        (None, Err(SysError::OutOfMemory))
    );
    assert_eq!(s.processes[0].sigaltstack, SignalStack::default());
}

#[test]
fn sigaltstack_minimum_size_is_accepted() {
    let mut s = one_proc_state();
    let ss = SignalStack { sp: 0x7000_0000, flags: SS_DISABLE, size: 2048 };
    assert_eq!(s.sys_sigaltstack(Some(&ss), false), (None, Ok(0)));
    assert_eq!(s.processes[0].sigaltstack, ss);
}

#[test]
fn sigaltstack_rejects_flags_outside_allowed_set() {
    let mut s = one_proc_state();
    let ss = SignalStack { sp: 0x7000_0000, flags: 0x4, size: 4096 };
    assert_eq!(
        s.sys_sigaltstack(Some(&ss), false),
        (None, Err(SysError::InvalidArgument))
    );
    let also_onstack = SignalStack { sp: 0x7000_0000, flags: SS_ONSTACK, size: 4096 };
    assert_eq!(
        s.sys_sigaltstack(Some(&also_onstack), false),
        (None, Err(SysError::InvalidArgument))
    );
    assert_eq!(s.processes[0].sigaltstack, SignalStack::default());
}

#[test]
fn sigaltstack_accepts_autodisarm() {
    let mut s = one_proc_state();
    let ss = SignalStack { sp: 0x7000_0000, flags: SS_AUTODISARM, size: 8192 };
    assert_eq!(s.sys_sigaltstack(Some(&ss), false), (None, Ok(0)));
    assert_eq!(s.processes[0].sigaltstack, ss);
}

#[test]
fn sigaltstack_active_stack_cannot_be_changed() {
    let mut s = one_proc_state();
    let active = SignalStack { sp: 0x6000_0000, flags: SS_ONSTACK, size: 8192 };
    s.processes[0].sigaltstack = active;
    let replacement = SignalStack { sp: 0x7000_0000, flags: 0, size: 8192 };
    let (old, r) = s.sys_sigaltstack(Some(&replacement), false);
    assert_eq!(r, Err(SysError::PermissionDenied));
    assert_eq!(old, None);
    assert_eq!(s.processes[0].sigaltstack, active);
}

#[test]
fn sigaltstack_rejected_descriptor_still_delivers_old() {
    // The old descriptor is copied out before the new one is validated, so
    // the caller holds it whichever way the call then fails.
    let configured = SignalStack { sp: 0x6000_0000, flags: 0, size: 8192 };
    let too_small = SignalStack { sp: 0x7000_0000, flags: SS_DISABLE, size: 1024 };
    let bad_flags = SignalStack { sp: 0x7000_0000, flags: 0x4, size: 8192 };
    for bad in [too_small, bad_flags] {
        let mut s = one_proc_state();
        s.processes[0].sigaltstack = configured;
        let (old, r) = s.sys_sigaltstack(Some(&bad), true);
        assert!(r.is_err());
        assert_eq!(old, Some(configured), "copy-out happens before validation");
        assert_eq!(s.processes[0].sigaltstack, configured);
    }
    let mut s = one_proc_state();
    let active = SignalStack { sp: 0x6000_0000, flags: SS_ONSTACK, size: 8192 };
    s.processes[0].sigaltstack = active;
    let fine = SignalStack { sp: 0x7000_0000, flags: 0, size: 8192 };
    let (old, r) = s.sys_sigaltstack(Some(&fine), true);
    assert_eq!(r, Err(SysError::PermissionDenied));
    assert_eq!(old, Some(active));
    assert_eq!(s.processes[0].sigaltstack, active);
}

#[test]
fn sigaltstack_reads_old_descriptor_first() {
    let mut s = one_proc_state();
    let first = SignalStack { sp: 0x7000_0000, flags: 0, size: 4096 };
    let second = SignalStack { sp: 0x8000_0000, flags: 0, size: 8192 };
    assert_eq!(
        s.sys_sigaltstack(Some(&first), true),
        (Some(SignalStack::default()), Ok(0))
    );
    let (old, r) = s.sys_sigaltstack(Some(&second), true);
    assert_eq!(r, Ok(0));
    assert_eq!(old.expect("old descriptor was requested"), first);
    assert_eq!(s.processes[0].sigaltstack, second);
    assert_eq!(s.sys_sigaltstack(None, true), (Some(second), Ok(0)));
}
