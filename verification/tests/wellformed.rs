use sigcore::process::Process;
use sigcore::signal::{SignalAction, SignalStack, NSIG, SS_DISABLE};
use sigcore::syscall::Syscall;

fn state() -> Syscall {
    let caller = Process::new(1, 1, 100);
    let mut other = Process::new(2, 2, 200);
    other.add_thread(201);
    Syscall { processes: vec![caller, other], caller_pid: 1, caller_tid: 100 }
}

#[test]
fn fresh_processes_form_a_wellformed_table() {
    let s = state();
    assert!(s.is_wf());
    assert!(s.processes[0].is_wf());
}

#[test]
fn new_process_starts_with_defaults() {
    let p = Process::new(5, 7, 500);
    assert_eq!(p.pid, 5);
    assert_eq!(p.pgid, 7);
    assert!(p.alive);
    assert_eq!(p.dispositions.len(), NSIG + 1);
    assert!(p.dispositions.iter().all(|a| *a == SignalAction::default()));
    assert_eq!(p.sigaltstack, SignalStack { sp: 0, flags: SS_DISABLE, size: 0 });
    assert_eq!(p.threads.len(), 1);
    assert_eq!(p.threads[0].tid, 500);
    assert_eq!(p.threads[0].sig_mask.bits, 0);
    assert_eq!(p.threads[0].sig_pending.bits, 0);
    assert!(!p.threads[0].waiting);
}

#[test]
fn duplicate_pids_are_rejected() {
    let mut s = state();
    s.processes[1].pid = 1;
    assert!(!s.is_wf());
}

#[test]
fn shared_tid_across_processes_is_rejected() {
    let mut s = state();
    s.processes[1].threads[1].tid = 100;
    assert!(!s.is_wf());
}

#[test]
fn duplicate_tids_within_a_process_are_rejected() {
    let mut s = state();
    s.processes[1].threads[1].tid = 200;
    assert!(!s.is_wf());
    assert!(!s.processes[1].is_wf());
}

#[test]
fn missing_or_dead_caller_is_rejected() {
    let mut s = state();
    s.caller_pid = 9;
    assert!(!s.is_wf());
    let mut t = state();
    t.processes[0].alive = false;
    assert!(!t.is_wf());
    let mut u = state();
    u.caller_tid = 999;
    assert!(!u.is_wf());
}

#[test]
fn truncated_disposition_table_is_rejected() {
    let mut s = state();
    s.processes[0].dispositions.pop();
    assert!(!s.is_wf());
}

#[test]
fn empty_thread_list_is_rejected() {
    let mut s = state();
    s.processes[1].threads.clear();
    assert!(!s.is_wf());
}
