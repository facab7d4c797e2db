use sigcore::error::SysError;
use sigcore::process::Process;
use sigcore::signal::{Siginfo, SignalFrame, TrapFrame, SI_USER};
use sigcore::syscall::Syscall;

fn one_proc_state() -> Syscall {
    let p = Process::new(1, 1, 100);
    Syscall { processes: vec![p], caller_pid: 1, caller_tid: 100 }
}

fn frame_with(rax: u64) -> SignalFrame {
    SignalFrame {
        ret_code_addr: 0x5000,
        tf: TrapFrame {
            rax,
            rbx: 0x1111,
            rcx: 0x2222,
            rdx: 0x3333,
            rsi: 0x4444,
            rdi: 0x5555,
            rbp: 0x6666,
            rsp: 0x7777_0000,
            rip: 0x8888_0000,
            rflags: 0x202,
        },
        info: Siginfo { signo: 15, errno: 0, code: SI_USER, field: 0 },
    }
}

#[test]
fn sigreturn_restores_trap_frame_exactly() {
    let mut s = one_proc_state();
    let frame = frame_with(42);
    let r = s.sys_rt_sigreturn(frame);
    assert_eq!(r, Ok(42));
    assert_eq!(s.processes[0].threads[0].tf, frame.tf);
}

#[test]
fn sigreturn_decodes_negative_esrch() {
    let mut s = one_proc_state();
    let frame = frame_with((-3i64) as u64);
    assert_eq!(s.sys_rt_sigreturn(frame), Err(SysError::NoSuchProcess));
    assert_eq!(s.processes[0].threads[0].tf, frame.tf);
}

#[test]
fn sigreturn_decodes_each_known_error_code() {
    let cases: [(i64, SysError); 4] = [
        (-1, SysError::PermissionDenied),
        (-3, SysError::NoSuchProcess),
        (-12, SysError::OutOfMemory),
        (-22, SysError::InvalidArgument),
    ];
    for (raw, kind) in cases {
        let mut s = one_proc_state();
        let frame = frame_with(raw as u64);
        assert_eq!(s.sys_rt_sigreturn(frame), Err(kind));
    }
}

#[test]
fn sigreturn_passes_large_positive_results_through() {
    let mut s = one_proc_state();
    let frame = frame_with(0x7fff_ffff_ffff_ffff);
    assert_eq!(s.sys_rt_sigreturn(frame), Ok(0x7fff_ffff_ffff_ffff));
}
