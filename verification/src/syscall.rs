//! The syscall surface: one context per trapping thread, the transition
//! predicates that state exactly what each call does, and the verified
//! implementations.

use vstd::prelude::*;

use crate::error::{error_from_code, error_of_code, known_error_code, SysError, SysResult};
use crate::process::{
    blocks, delivered_at, first_unblocked, lemma_delivered_wf, lemma_first_unblocked,
    lemma_receiver_idx_bounds, lemma_tid_disjoint_preserved, no_shared_tid, proc_delivered,
    receiver_idx, same_tids, Process, Thread,
};
use crate::signal::{
    signal_from_usize, signum_valid, Siginfo, SignalAction, SignalFrame, SignalStack, Sigset,
    TrapFrame, MINSIGSTKSZ, SIGKILL, SIGSTOP, SI_USER, SS_ALLOWED_FLAGS, SS_DISABLE,
    SS_ONSTACK,
};

verus! {

/// `how` of the mask update: add the given set to the mask.
pub const SIG_BLOCK: usize = 0;

/// `how` of the mask update: remove the given set from the mask.
pub const SIG_UNBLOCK: usize = 1;

/// `how` of the mask update: replace the mask by the given set.
pub const SIG_SETMASK: usize = 2;

/// The one fixed-size-set width this ABI accepts.
pub const SIGSETSIZE: usize = 8;

/// The kernel-side context of one thread that trapped into the kernel:
/// the process table and the identity of the calling thread. Holding the
/// context exclusively models the exclusive access the shared records
/// require for a read-modify sequence.
pub struct Syscall {
    /// Every registered process, live or stale.
    pub processes: Vec<Process>,
    /// Process id of the caller.
    pub caller_pid: usize,
    /// Thread id of the calling thread, within the calling process.
    pub caller_tid: usize,
}

/// The index of the one thread with id `tid` in `threads`; meaningful under
/// the per-process thread-id uniqueness of `Process::wf`.
pub open spec fn tid_idx_in(threads: Seq<Thread>, tid: usize) -> int {
    choose|k: int| 0 <= k < threads.len() && threads[k].tid == tid
}

/// Nothing observable changed: same caller, same process table.
pub open spec fn same_state(pre: Syscall, post: Syscall) -> bool {
    &&& post.caller_pid == pre.caller_pid
    &&& post.caller_tid == pre.caller_tid
    &&& post.processes@ == pre.processes@
}

/// The call neither changes who is calling nor registers or removes a
/// process.
pub open spec fn same_ids(pre: Syscall, post: Syscall) -> bool {
    &&& post.caller_pid == pre.caller_pid
    &&& post.caller_tid == pre.caller_tid
    &&& post.processes@.len() == pre.processes@.len()
}

/// The process after its disposition for `signum` was replaced by `a`:
/// nothing else changes.
pub open spec fn dispo_updated(pre: Process, post: Process, signum: usize, a: SignalAction) -> bool {
    &&& post.pid == pre.pid
    &&& post.pgid == pre.pgid
    &&& post.alive == pre.alive
    &&& post.sigaltstack == pre.sigaltstack
    &&& post.threads@ == pre.threads@
    &&& post.dispositions@ == pre.dispositions@.update(signum as int, a)
}

/// The process after thread `k`'s signal mask was replaced by `m`: nothing
/// else changes.
pub open spec fn mask_set(pre: Process, post: Process, k: int, m: Sigset) -> bool {
    &&& post.pid == pre.pid
    &&& post.pgid == pre.pgid
    &&& post.alive == pre.alive
    &&& post.sigaltstack == pre.sigaltstack
    &&& post.dispositions@ == pre.dispositions@
    &&& post.threads@ == pre.threads@.update(k, Thread { sig_mask: m, ..pre.threads@[k] })
}

/// The process after thread `k`'s trap frame was replaced by `tf`: nothing
/// else changes.
pub open spec fn tf_restored(pre: Process, post: Process, k: int, tf: TrapFrame) -> bool {
    &&& post.pid == pre.pid
    &&& post.pgid == pre.pgid
    &&& post.alive == pre.alive
    &&& post.sigaltstack == pre.sigaltstack
    &&& post.dispositions@ == pre.dispositions@
    &&& post.threads@ == pre.threads@.update(k, Thread { tf, ..pre.threads@[k] })
}

/// The process after its alternate-stack descriptor was replaced by `s`:
/// nothing else changes.
pub open spec fn stack_set(pre: Process, post: Process, s: SignalStack) -> bool {
    &&& post.pid == pre.pid
    &&& post.pgid == pre.pgid
    &&& post.alive == pre.alive
    &&& post.sigaltstack == s
    &&& post.dispositions@ == pre.dispositions@
    &&& post.threads@ == pre.threads@
}

/// The mask a thread ends up with after a mask update.
pub open spec fn new_mask(old_mask: Sigset, how: usize, s: Sigset) -> Sigset
    recommends
        how <= SIG_SETMASK,
{
    if how == SIG_BLOCK {
        Sigset { bits: old_mask.bits | s.bits }
    } else if how == SIG_UNBLOCK {
        Sigset { bits: old_mask.bits & !s.bits }
    } else {
        s
    }
}

/// The arguments on which a disposition may be read or replaced: a known
/// signal that is neither `SIGKILL` nor `SIGSTOP`, and the exact set size.
pub open spec fn sigaction_allowed(signum: usize, sigsetsize: usize) -> bool {
    &&& signum_valid(signum)
    &&& signum != SIGKILL
    &&& signum != SIGSTOP
    &&& sigsetsize == SIGSETSIZE
}

impl Syscall {
    /// Whether `p` is the calling process of this context.
    pub open spec fn is_caller_proc(self, p: Process) -> bool {
        p.alive && p.pid == self.caller_pid
    }

    /// Well-formedness: every process is well formed, process ids are
    /// distinct, no thread id is owned by two processes — a thread has one
    /// owning process, which is what the thread-to-process lookup resolves —
    /// and the caller is a live registered process one of whose threads is
    /// the calling thread.
    pub open spec fn wf(self) -> bool {
        &&& forall|i: int|
            0 <= i < self.processes@.len() ==> (#[trigger] self.processes@[i]).wf()
        &&& forall|i: int, j: int|
            0 <= i < j < self.processes@.len()
                ==> self.processes@[i].pid != self.processes@[j].pid
        &&& forall|i: int, j: int|
            #![trigger self.processes@[i], self.processes@[j]]
            0 <= i < j < self.processes@.len() ==> no_shared_tid(
                self.processes@[i],
                self.processes@[j],
            )
        &&& exists|i: int|
            0 <= i < self.processes@.len() && self.is_caller_proc(#[trigger] self.processes@[i])
                && self.processes@[i].spec_has_tid(self.caller_tid)
    }

    /// The index of the calling process in the table; under `wf` exactly one
    /// index qualifies.
    pub open spec fn caller_idx(self) -> int {
        choose|i: int|
            0 <= i < self.processes@.len() && self.is_caller_proc(#[trigger] self.processes@[i])
                && self.processes@[i].spec_has_tid(self.caller_tid)
    }

    /// The index, within the calling process, of the calling thread.
    pub open spec fn caller_thread_idx(self) -> int {
        tid_idx_in(self.processes@[self.caller_idx()].threads@, self.caller_tid)
    }

    /// The calling thread's signal mask.
    pub open spec fn caller_mask(self) -> Sigset {
        self.processes@[self.caller_idx()].threads@[self.caller_thread_idx()].sig_mask
    }

    /// The calling process's disposition for `signum`.
    pub open spec fn caller_disposition(self, signum: usize) -> SignalAction {
        self.processes@[self.caller_idx()].dispositions@[signum as int]
    }

    /// The calling process's alternate-stack descriptor.
    pub open spec fn caller_stack(self) -> SignalStack {
        self.processes@[self.caller_idx()].sigaltstack
    }

    /// Decides well-formedness, for callers that receive a context from
    /// outside the verified world and must test it before trusting it.
    pub fn is_wf(&self) -> (r: bool)
        ensures
            r == self.wf(),
    {
        let n = self.processes.len();
        let mut i: usize = 0;
        while i < n
            invariant
                n == self.processes@.len(),
                i <= n,
                forall|k: int| 0 <= k < i ==> (#[trigger] self.processes@[k]).wf(),
            decreases n - i,
        {
            if !self.processes[i].is_wf() {
                return false;
            }
            i = i + 1;
        }
        let mut a: usize = 0;
        while a < n
            invariant
                n == self.processes@.len(),
                a <= n,
                forall|x: int, y: int|
                    #![trigger self.processes@[x], self.processes@[y]]
                    0 <= x < y < n && x < a ==> self.processes@[x].pid != self.processes@[y].pid,
            decreases n - a,
        {
            let mut b: usize = a + 1;
            while b < n
                invariant
                    n == self.processes@.len(),
                    a < n,
                    a + 1 <= b <= n,
                    forall|y: int| a < y < b ==> self.processes@[a as int].pid != (
                    #[trigger] self.processes@[y]).pid,
                decreases n - b,
            {
                if self.processes[a].pid == self.processes[b].pid {
                    return false;
                }
                b = b + 1;
            }
            a = a + 1;
        }
        let mut x: usize = 0;
        while x < n
            invariant
                n == self.processes@.len(),
                x <= n,
                forall|i: int, j: int|
                    #![trigger self.processes@[i], self.processes@[j]]
                    0 <= i < j < n && i < x ==> no_shared_tid(
                        self.processes@[i],
                        self.processes@[j],
                    ),
            decreases n - x,
        {
            let mut y: usize = x + 1;
            while y < n
                invariant
                    n == self.processes@.len(),
                    x < n,
                    x + 1 <= y <= n,
                    forall|j: int|
                        x < j < y ==> no_shared_tid(
                            self.processes@[x as int],
                            #[trigger] self.processes@[j],
                        ),
                decreases n - y,
            {
                if shares_tid(&self.processes[x], &self.processes[y]) {
                    return false;
                }
                y = y + 1;
            }
            x = x + 1;
        }
        let mut c: usize = 0;
        while c < n
            invariant
                n == self.processes@.len(),
                c <= n,
                forall|k: int| 0 <= k < n ==> (#[trigger] self.processes@[k]).wf(),
                forall|x: int, y: int|
                    #![trigger self.processes@[x], self.processes@[y]]
                    0 <= x < y < n ==> self.processes@[x].pid != self.processes@[y].pid,
                forall|x: int, y: int|
                    #![trigger self.processes@[x], self.processes@[y]]
                    0 <= x < y < n ==> no_shared_tid(self.processes@[x], self.processes@[y]),
                forall|k: int|
                    0 <= k < c ==> !(self.is_caller_proc(#[trigger] self.processes@[k])
                        && self.processes@[k].spec_has_tid(self.caller_tid)),
            decreases n - c,
        {
            let p = &self.processes[c];
            if p.alive && p.pid == self.caller_pid && has_thread(p, self.caller_tid) {
                return true;
            }
            c = c + 1;
        }
        false
    }

    /// Finds the calling process in the table.
    fn caller_index(&self) -> (ci: usize)
        requires
            self.wf(),
        ensures
            ci < self.processes@.len(),
            ci as int == self.caller_idx(),
            self.is_caller_proc(self.processes@[ci as int]),
            self.processes@[ci as int].spec_has_tid(self.caller_tid),
    {
        let n = self.processes.len();
        let mut i: usize = 0;
        while i < n
            invariant
                self.wf(),
                n == self.processes@.len(),
                i <= n,
                forall|k: int|
                    0 <= k < i ==> !self.is_caller_proc(#[trigger] self.processes@[k]),
            decreases n - i,
        {
            let p = &self.processes[i];
            if p.alive && p.pid == self.caller_pid {
                proof {
                    let w = choose|w: int|
                        0 <= w < self.processes@.len() && self.is_caller_proc(
                            #[trigger] self.processes@[w],
                        ) && self.processes@[w].spec_has_tid(self.caller_tid);
                    assert(self.processes@[w].pid == self.caller_pid);
                    assert(w == i as int);
                    let c = self.caller_idx();
                    assert(self.processes@[c].pid == self.caller_pid);
                    assert(c == i as int);
                }
                return i;
            }
            i = i + 1;
        }
        proof {
            let w = choose|w: int|
                0 <= w < self.processes@.len() && self.is_caller_proc(
                    #[trigger] self.processes@[w],
                ) && self.processes@[w].spec_has_tid(self.caller_tid);
            assert(!self.is_caller_proc(self.processes@[w]));
            assert(false);
        }
        0
    }
}

/// Finds the thread with id `tid` within a process.
fn thread_index(p: &Process, tid: usize) -> (k: usize)
    requires
        p.wf(),
        p.spec_has_tid(tid),
    ensures
        k < p.threads@.len(),
        p.threads@[k as int].tid == tid,
        k as int == tid_idx_in(p.threads@, tid),
{
    let n = p.threads.len();
    let mut i: usize = 0;
    while i < n
        invariant
            p.wf(),
            p.spec_has_tid(tid),
            n == p.threads@.len(),
            i <= n,
            forall|k: int| 0 <= k < i ==> (#[trigger] p.threads@[k]).tid != tid,
        decreases n - i,
    {
        if p.threads[i].tid == tid {
            proof {
                let c = tid_idx_in(p.threads@, tid);
                assert(p.threads@[c].tid == tid);
                assert(c == i as int);
            }
            return i;
        }
        i = i + 1;
    }
    proof {
        let w = choose|k: int| 0 <= k < p.threads@.len() && p.threads@[k].tid == tid;
        assert(p.threads@[w].tid != tid);
        assert(false);
    }
    0
}

/// The value behind an optional user-supplied record, once marshaled.
pub open spec fn copied_in<T>(o: Option<&T>) -> Option<T> {
    match o {
        Some(t) => Some(*t),
        None => None,
    }
}

/// What `sys_rt_sigaction` does: on a disallowed signal or set size it
/// fails with `InvalidArgument` before the old action could be copied out
/// and touches nothing; otherwise it copies the previous disposition out
/// when asked to, and replaces the table entry verbatim when a new action
/// is supplied.
pub open spec fn sigaction_tr(
    pre: Syscall,
    post: Syscall,
    signum: usize,
    act: Option<SignalAction>,
    want_old: bool,
    sigsetsize: usize,
    old_out: Option<SignalAction>,
    r: SysResult,
) -> bool {
    if !sigaction_allowed(signum, sigsetsize) {
        &&& r == Err::<u64, SysError>(SysError::InvalidArgument)
        &&& old_out is None
        &&& same_state(pre, post)
    } else {
        let ci = pre.caller_idx();
        &&& same_ids(pre, post)
        &&& r == Ok::<u64, SysError>(0)
        &&& old_out == (if want_old {
            Some(pre.caller_disposition(signum))
        } else {
            None::<SignalAction>
        })
        &&& forall|j: int|
            0 <= j < pre.processes@.len() && j != ci ==> post.processes@[j] == pre.processes@[j]
        &&& match act {
            Some(a) => dispo_updated(pre.processes@[ci], post.processes@[ci], signum, a),
            None => post.processes@[ci] == pre.processes@[ci],
        }
    }
}

/// What `sys_rt_sigprocmask` does: a wrong set size fails before anything
/// is read; otherwise the calling thread's previous mask is copied out
/// first when asked to — and still delivered when an unknown `how` then
/// fails the call — and the update applies to that thread's mask alone
/// when a set is supplied.
pub open spec fn sigprocmask_tr(
    pre: Syscall,
    post: Syscall,
    how: usize,
    set: Option<Sigset>,
    want_old: bool,
    sigsetsize: usize,
    old_out: Option<Sigset>,
    r: SysResult,
) -> bool {
    let ci = pre.caller_idx();
    let ti = pre.caller_thread_idx();
    if sigsetsize != SIGSETSIZE {
        &&& r == Err::<u64, SysError>(SysError::InvalidArgument)
        &&& old_out is None
        &&& same_state(pre, post)
    } else {
        &&& old_out == (if want_old {
            Some(pre.caller_mask())
        } else {
            None::<Sigset>
        })
        &&& if set is Some && how > SIG_SETMASK {
            &&& r == Err::<u64, SysError>(SysError::InvalidArgument)
            &&& same_state(pre, post)
        } else {
            &&& r == Ok::<u64, SysError>(0)
            &&& match set {
                None => same_state(pre, post),
                Some(s) => {
                    &&& same_ids(pre, post)
                    &&& forall|j: int|
                        0 <= j < pre.processes@.len() && j != ci ==> post.processes@[j]
                            == pre.processes@[j]
                    &&& mask_set(
                        pre.processes@[ci],
                        post.processes@[ci],
                        ti,
                        new_mask(pre.caller_mask(), how, s),
                    )
                },
            }
        }
    }
}

/// What `sys_sigaltstack` does: the old descriptor is copied out before
/// any check of the new one, so the caller receives it even when the call
/// then fails; a new descriptor is rejected for a too-small size under
/// `SS_DISABLE`, for flag bits outside the allowed set, or whenever the
/// current stack is in active use; otherwise it replaces the old one.
pub open spec fn sigaltstack_tr(
    pre: Syscall,
    post: Syscall,
    ss: Option<SignalStack>,
    want_old: bool,
    old_out: Option<SignalStack>,
    r: SysResult,
) -> bool {
    let ci = pre.caller_idx();
    let cur = pre.caller_stack();
    &&& old_out == (if want_old {
        Some(cur)
    } else {
        None::<SignalStack>
    })
    &&& match ss {
        None => {
            &&& r == Ok::<u64, SysError>(0)
            &&& same_state(pre, post)
        },
        Some(s) => {
            if s.flags & SS_DISABLE != 0 && s.size < MINSIGSTKSZ {
                &&& r == Err::<u64, SysError>(SysError::OutOfMemory)
                &&& same_state(pre, post)
            } else if s.flags & !SS_ALLOWED_FLAGS != 0 {
                &&& r == Err::<u64, SysError>(SysError::InvalidArgument)
                &&& same_state(pre, post)
            } else if cur.flags & SS_ONSTACK != 0 {
                &&& r == Err::<u64, SysError>(SysError::PermissionDenied)
                &&& same_state(pre, post)
            } else {
                &&& r == Ok::<u64, SysError>(0)
                &&& same_ids(pre, post)
                &&& forall|j: int|
                    0 <= j < pre.processes@.len() && j != ci ==> post.processes@[j]
                        == pre.processes@[j]
                &&& stack_set(pre.processes@[ci], post.processes@[ci], s)
            }
        },
    }
}

/// The two's-complement magnitude of a negative result register value.
pub open spec fn neg_of(rax: u64) -> u64 {
    (0x10000000000000000 - rax) as u64
}

/// A result register decodes either as a non-negative success or as a
/// negated known error code; anything else is a frame the dispatch path
/// never writes.
pub open spec fn sigreturn_decodable(rax: u64) -> bool {
    rax < 0x8000000000000000 || known_error_code(neg_of(rax))
}

/// The syscall result the interrupted thread is expected to see, re-derived
/// from its restored result register.
pub open spec fn decode_ret(rax: u64) -> SysResult
    recommends
        sigreturn_decodable(rax),
{
    if rax < 0x8000000000000000 {
        Ok(rax)
    } else {
        Err(error_of_code(neg_of(rax)))
    }
}

/// What `sys_rt_sigreturn` does: the calling thread's trap frame is replaced
/// by exactly the frame's saved state, nothing else changes, and the result
/// is decoded from the restored result register.
pub open spec fn sigreturn_tr(pre: Syscall, post: Syscall, frame: SignalFrame, r: SysResult) -> bool {
    let ci = pre.caller_idx();
    let ti = pre.caller_thread_idx();
    &&& same_ids(pre, post)
    &&& forall|j: int|
        0 <= j < pre.processes@.len() && j != ci ==> post.processes@[j] == pre.processes@[j]
    &&& tf_restored(pre.processes@[ci], post.processes@[ci], ti, frame.tf)
    &&& r == decode_ret(frame.tf.rax)
}

/// Index of the live process owning a thread with id `tid`, or `-1` when
/// no live process does. Written as a first-match scan; under `Syscall::wf`
/// thread ids are disjoint across processes, so at most one process
/// qualifies.
pub open spec fn owner_at(procs: Seq<Process>, tid: usize) -> int
    decreases procs.len(),
{
    if procs.len() == 0 {
        -1
    } else if procs[0].alive && procs[0].spec_has_tid(tid) {
        0
    } else {
        let rest = owner_at(procs.drop_first(), tid);
        if rest < 0 {
            -1
        } else {
            rest + 1
        }
    }
}

pub proof fn lemma_owner_at(procs: Seq<Process>, tid: usize)
    ensures
        owner_at(procs, tid) == -1 ==> forall|k: int|
            0 <= k < procs.len() ==> !((#[trigger] procs[k]).alive && procs[k].spec_has_tid(tid)),
        owner_at(procs, tid) >= 0 ==> {
            let f = owner_at(procs, tid);
            &&& 0 <= f < procs.len()
            &&& procs[f].alive && procs[f].spec_has_tid(tid)
            &&& forall|k: int|
                0 <= k < f ==> !((#[trigger] procs[k]).alive && procs[k].spec_has_tid(tid))
        },
    decreases procs.len(),
{
    if procs.len() > 0 && !(procs[0].alive && procs[0].spec_has_tid(tid)) {
        lemma_owner_at(procs.drop_first(), tid);
        assert forall|k: int| 1 <= k < procs.len() implies procs.drop_first()[k - 1] == procs[k] by {}
    }
}

/// Which processes a `kill` with this `pid` argument targets, given the
/// caller's process-group id: a single process by id, the caller's group,
/// every live process, or the group `-pid` names.
pub open spec fn kill_scope(p: Process, pid: isize, cpg: isize) -> bool {
    if pid > 0 {
        p.alive && p.pid == pid as usize
    } else if pid == 0 {
        p.alive && p.pgid == cpg
    } else if pid == -1 {
        p.alive
    } else {
        p.alive && p.pgid == -pid
    }
}

/// Every process the `pid` argument targets received one process-directed
/// delivery of `signum`; every other process is untouched.
pub open spec fn kill_delivery(pre: Syscall, post: Syscall, pid: isize, signum: usize) -> bool {
    let cpg = pre.processes@[pre.caller_idx()].pgid;
    &&& same_ids(pre, post)
    &&& forall|j: int|
        0 <= j < pre.processes@.len() && kill_scope(#[trigger] pre.processes@[j], pid, cpg)
            ==> proc_delivered(pre.processes@[j], post.processes@[j], signum)
    &&& forall|j: int|
        0 <= j < pre.processes@.len() && !kill_scope(#[trigger] pre.processes@[j], pid, cpg)
            ==> post.processes@[j] == pre.processes@[j]
}

/// What `sys_kill` does: an unknown signal is rejected; when the targeted
/// scope is empty the named process or group does not exist; otherwise
/// every process in scope is signaled once and the call succeeds.
pub open spec fn kill_tr(pre: Syscall, post: Syscall, pid: isize, signum: usize, r: SysResult) -> bool {
    let cpg = pre.processes@[pre.caller_idx()].pgid;
    if !signum_valid(signum) {
        &&& r == Err::<u64, SysError>(SysError::InvalidArgument)
        &&& same_state(pre, post)
    } else if exists|j: int|
        0 <= j < pre.processes@.len() && kill_scope(#[trigger] pre.processes@[j], pid, cpg) {
        &&& r == Ok::<u64, SysError>(0)
        &&& kill_delivery(pre, post, pid, signum)
    } else {
        &&& r == Err::<u64, SysError>(SysError::NoSuchProcess)
        &&& same_state(pre, post)
    }
}

/// What `sys_tkill` does: an unknown signal is rejected; when no live
/// process owns a thread `tid` the target does not exist; otherwise exactly
/// the named thread of the owning process is signaled.
pub open spec fn tkill_tr(pre: Syscall, post: Syscall, tid: usize, signum: usize, r: SysResult) -> bool {
    if !signum_valid(signum) {
        &&& r == Err::<u64, SysError>(SysError::InvalidArgument)
        &&& same_state(pre, post)
    } else {
        let oi = owner_at(pre.processes@, tid);
        if oi < 0 {
            &&& r == Err::<u64, SysError>(SysError::NoSuchProcess)
            &&& same_state(pre, post)
        } else {
            &&& r == Ok::<u64, SysError>(0)
            &&& same_ids(pre, post)
            &&& forall|j: int|
                0 <= j < pre.processes@.len() && j != oi ==> post.processes@[j]
                    == pre.processes@[j]
            &&& delivered_at(
                pre.processes@[oi],
                post.processes@[oi],
                tid_idx_in(pre.processes@[oi].threads@, tid),
                signum,
            )
        }
    }
}

/// Finds the thread of `p` a process-directed signal lands on: the first
/// one not blocking it, or the first thread when all of them block it.
fn receiver_index(p: &Process, signum: usize) -> (k: usize)
    requires
        p.wf(),
        signum_valid(signum),
    ensures
        k < p.threads@.len(),
        k as int == receiver_idx(p.threads@, signum),
{
    let n = p.threads.len();
    let mut i: usize = 0;
    while i < n
        invariant
            p.wf(),
            signum_valid(signum),
            n == p.threads@.len(),
            i <= n,
            forall|k: int| 0 <= k < i ==> blocks(#[trigger] p.threads@[k], signum),
        decreases n - i,
    {
        if !p.threads[i].sig_mask.contains(signum) {
            proof {
                lemma_first_unblocked(p.threads@, signum);
                let f = first_unblocked(p.threads@, signum);
                assert(f != -1);
                assert(f == i as int);
            }
            return i;
        }
        i = i + 1;
    }
    proof {
        lemma_first_unblocked(p.threads@, signum);
        let f = first_unblocked(p.threads@, signum);
        assert(f == -1);
    }
    0
}

/// Whether the two processes own some thread id in common.
fn shares_tid(a: &Process, b: &Process) -> (r: bool)
    ensures
        r == !no_shared_tid(*a, *b),
{
    let n = a.threads.len();
    let mut i: usize = 0;
    while i < n
        invariant
            n == a.threads@.len(),
            i <= n,
            forall|k: int| 0 <= k < i ==> !b.spec_has_tid((#[trigger] a.threads@[k]).tid),
        decreases n - i,
    {
        if has_thread(b, a.threads[i].tid) {
            proof {
                let t = a.threads@[i as int].tid;
                assert(a.spec_has_tid(t));
                assert(b.spec_has_tid(t));
            }
            return true;
        }
        i = i + 1;
    }
    proof {
        assert forall|t: usize|
            #![trigger a.spec_has_tid(t), b.spec_has_tid(t)]
            !(a.spec_has_tid(t) && b.spec_has_tid(t)) by {
            if a.spec_has_tid(t) {
                let k = choose|k: int| 0 <= k < a.threads@.len() && a.threads@[k].tid == t;
                assert(!b.spec_has_tid(a.threads@[k].tid));
            }
        }
    }
    false
}

/// Whether some thread of `p` has the id `tid`.
fn has_thread(p: &Process, tid: usize) -> (r: bool)
    ensures
        r == p.spec_has_tid(tid),
{
    let n = p.threads.len();
    let mut i: usize = 0;
    while i < n
        invariant
            n == p.threads@.len(),
            i <= n,
            forall|k: int| 0 <= k < i ==> (#[trigger] p.threads@[k]).tid != tid,
        decreases n - i,
    {
        if p.threads[i].tid == tid {
            return true;
        }
        i = i + 1;
    }
    false
}

impl Syscall {
    /// Reads or replaces the calling process's disposition for `signum`.
    ///
    /// The `SIGKILL` and `SIGSTOP` entries are immutable, and an unknown
    /// signal number or a set size other than 8 bytes is rejected before
    /// anything is read; past the checks the old action is copied out
    /// before any write.
    pub fn sys_rt_sigaction(
        &mut self,
        signum: usize,
        act: Option<&SignalAction>,
        want_old: bool,
        sigsetsize: usize,
    ) -> (r: (Option<SignalAction>, SysResult))
        requires
            old(self).wf(),
        ensures
            final(self).wf(),
            sigaction_tr(
                *old(self),
                *final(self),
                signum,
                copied_in(act),
                want_old,
                sigsetsize,
                r.0,
                r.1,
            ),
    {
        if signal_from_usize(signum).is_none() {
            return (None, Err(SysError::InvalidArgument));
        }
        if signum == SIGKILL || signum == SIGSTOP || sigsetsize != SIGSETSIZE {
            return (None, Err(SysError::InvalidArgument));
        }
        let ci = self.caller_index();
        let old_opt: Option<SignalAction> = if want_old {
            Some(self.processes[ci].dispositions[signum])
        } else {
            None
        };
        if let Some(a) = act {
            let p = &mut self.processes[ci];
            let slot = &mut p.dispositions[signum];
            *slot = *a;
        }
        proof {
            let pre = *old(self);
            let post = *self;
            assert forall|i: int| 0 <= i < post.processes@.len() implies (
            #[trigger] post.processes@[i]).wf() by {
                assert(pre.processes@[i].wf());
            }
            assert forall|q: int|
                0 <= q < pre.processes@.len() implies same_tids(
                #[trigger] pre.processes@[q],
                post.processes@[q],
            ) by {
                if q != ci as int {
                    assert(post.processes@[q] == pre.processes@[q]);
                }
            }
            lemma_tid_disjoint_preserved(pre.processes@, post.processes@);
            assert(post.processes@[ci as int].spec_has_tid(post.caller_tid));
        }
        (old_opt, Ok(0))
    }

    /// Reads or updates the calling thread's own signal mask: `BLOCK` adds
    /// the given set, `UNBLOCK` removes it, `SETMASK` replaces the mask.
    ///
    /// A set size other than 8 bytes is rejected before anything is read;
    /// past that point the old mask is copied out first when asked to, and
    /// the caller holds it even when an unknown `how` then fails the call
    /// without any mutation.
    pub fn sys_rt_sigprocmask(
        &mut self,
        how: usize,
        set: Option<&Sigset>,
        want_old: bool,
        sigsetsize: usize,
    ) -> (r: (Option<Sigset>, SysResult))
        requires
            old(self).wf(),
        ensures
            final(self).wf(),
            sigprocmask_tr(
                *old(self),
                *final(self),
                how,
                copied_in(set),
                want_old,
                sigsetsize,
                r.0,
                r.1,
            ),
    {
        if sigsetsize != SIGSETSIZE {
            return (None, Err(SysError::InvalidArgument));
        }
        let ci = self.caller_index();
        let ti = thread_index(&self.processes[ci], self.caller_tid);
        let old_mask = self.processes[ci].threads[ti].sig_mask;
        let old_opt: Option<Sigset> = if want_old {
            Some(old_mask)
        } else {
            None
        };
        if let Some(s) = set {
            if how > SIG_SETMASK {
                return (old_opt, Err(SysError::InvalidArgument));
            }
            let p = &mut self.processes[ci];
            let t = &mut p.threads[ti];
            if how == SIG_BLOCK {
                t.sig_mask.add_set(s);
            } else if how == SIG_UNBLOCK {
                t.sig_mask.remove_set(s);
            } else {
                t.sig_mask = *s;
            }
            proof {
                let pre = *old(self);
                let post = *self;
                assert forall|i: int| 0 <= i < post.processes@.len() implies (
                #[trigger] post.processes@[i]).wf() by {
                    assert(pre.processes@[i].wf());
                    if i == ci as int {
                        assert forall|a: int, b: int|
                            0 <= a < b < post.processes@[i].threads@.len() implies post.processes@[i].threads@[a].tid
                            != post.processes@[i].threads@[b].tid by {
                            assert(pre.processes@[i].threads@[a].tid != pre.processes@[i].threads@[b].tid);
                        }
                    }
                }
                assert forall|q: int|
                    0 <= q < pre.processes@.len() implies same_tids(
                    #[trigger] pre.processes@[q],
                    post.processes@[q],
                ) by {
                    if q != ci as int {
                        assert(post.processes@[q] == pre.processes@[q]);
                    }
                }
                    lemma_tid_disjoint_preserved(pre.processes@, post.processes@);
                assert(post.processes@[ci as int].spec_has_tid(post.caller_tid));
            }
        }
        (old_opt, Ok(0))
    }

    /// Reads or replaces the calling process's alternate-stack descriptor.
    ///
    /// The old descriptor is copied out first, so the caller holds it even
    /// when the call then fails; a new one is rejected when it asks for a
    /// disabled stack smaller than `MINSIGSTKSZ`, carries flag bits outside
    /// `SS_AUTODISARM | SS_DISABLE`, or arrives while a handler is running
    /// on the current stack.
    pub fn sys_sigaltstack(&mut self, ss: Option<&SignalStack>, want_old: bool) -> (r: (
        Option<SignalStack>,
        SysResult,
    ))
        requires
            old(self).wf(),
        ensures
            final(self).wf(),
            sigaltstack_tr(*old(self), *final(self), copied_in(ss), want_old, r.0, r.1),
    {
        let ci = self.caller_index();
        let old_opt: Option<SignalStack> = if want_old {
            Some(self.processes[ci].sigaltstack)
        } else {
            None
        };
        if let Some(s) = ss {
            if s.flags & SS_DISABLE != 0 && s.size < MINSIGSTKSZ {
                return (old_opt, Err(SysError::OutOfMemory));
            }
            if s.flags & !SS_ALLOWED_FLAGS != 0 {
                return (old_opt, Err(SysError::InvalidArgument));
            }
            if self.processes[ci].sigaltstack.flags & SS_ONSTACK != 0 {
                return (old_opt, Err(SysError::PermissionDenied));
            }
            let p = &mut self.processes[ci];
            p.sigaltstack = *s;
            proof {
                let pre = *old(self);
                let post = *self;
                assert forall|i: int| 0 <= i < post.processes@.len() implies (
                #[trigger] post.processes@[i]).wf() by {
                    assert(pre.processes@[i].wf());
                }
                assert forall|q: int|
                    0 <= q < pre.processes@.len() implies same_tids(
                    #[trigger] pre.processes@[q],
                    post.processes@[q],
                ) by {
                    if q != ci as int {
                        assert(post.processes@[q] == pre.processes@[q]);
                    }
                }
                    lemma_tid_disjoint_preserved(pre.processes@, post.processes@);
                assert(post.processes@[ci as int].spec_has_tid(post.caller_tid));
            }
        }
        (old_opt, Ok(0))
    }

    /// Restores the calling thread's full trapped register state from a
    /// signal frame the dispatch path wrote, consuming the frame, and
    /// re-derives the interrupted call's own result from the restored
    /// result register: a non-negative value succeeds, a negative one is
    /// decoded as the error kind whose code it negates.
    ///
    /// No other validation of the frame is performed: a frame whose result
    /// register decodes to no known error is one the dispatch path never
    /// writes, and is excluded here.
    pub fn sys_rt_sigreturn(&mut self, frame: SignalFrame) -> (r: SysResult)
        requires
            old(self).wf(),
            sigreturn_decodable(frame.tf.rax),
        ensures
            final(self).wf(),
            sigreturn_tr(*old(self), *final(self), frame, r),
    {
        let ci = self.caller_index();
        let ti = thread_index(&self.processes[ci], self.caller_tid);
        let rax = frame.tf.rax;
        let p = &mut self.processes[ci];
        let t = &mut p.threads[ti];
        t.tf = frame.tf;
        proof {
            let pre = *old(self);
            let post = *self;
            assert forall|i: int| 0 <= i < post.processes@.len() implies (
            #[trigger] post.processes@[i]).wf() by {
                assert(pre.processes@[i].wf());
                if i == ci as int {
                    assert forall|a: int, b: int|
                        0 <= a < b < post.processes@[i].threads@.len() implies post.processes@[i].threads@[a].tid
                        != post.processes@[i].threads@[b].tid by {
                        assert(pre.processes@[i].threads@[a].tid != pre.processes@[i].threads@[b].tid);
                    }
                }
            }
            assert forall|q: int|
                0 <= q < pre.processes@.len() implies same_tids(
                #[trigger] pre.processes@[q],
                post.processes@[q],
            ) by {
                if q != ci as int {
                    assert(post.processes@[q] == pre.processes@[q]);
                }
            }
            lemma_tid_disjoint_preserved(pre.processes@, post.processes@);
            assert(post.processes@[ci as int].spec_has_tid(post.caller_tid));
        }
        if rax < 0x8000000000000000u64 {
            Ok(rax)
        } else {
            let code = (u64::MAX - rax) + 1;
            match error_from_code(code) {
                Some(e) => Err(e),
                None => {
                    proof {
                        assert(false);
                    }
                    Err(SysError::InvalidArgument)
                },
            }
        }
    }
}

/// Whether `p` is targeted by a `kill` with this `pid` argument.
fn in_scope(p: &Process, pid: isize, cpg: isize) -> (r: bool)
    ensures
        r == kill_scope(*p, pid, cpg),
{
    if pid > 0 {
        p.alive && p.pid == pid as usize
    } else if pid == 0 {
        p.alive && p.pgid == cpg
    } else if pid == -1 {
        p.alive
    } else if pid == isize::MIN {
        // The magnitude of this id exceeds every representable group id.
        proof {
            assert(p.pgid < -pid);
        }
        false
    } else {
        p.alive && p.pgid == -pid
    }
}

impl Syscall {
    /// The delivery engine: resolves the receiving thread of the process at
    /// `pidx` — the named thread when a hint is given, else the first thread
    /// not blocking the signal (or the first thread outright when all block
    /// it) — marks the signal pending on it, idempotently, and wakes it.
    pub fn send_signal(&mut self, pidx: usize, tid_hint: Option<usize>, info: Siginfo)
        requires
            pidx < old(self).processes@.len(),
            old(self).processes@[pidx as int].wf(),
            1 <= info.signo,
            signum_valid(info.signo as usize),
            match tid_hint {
                Some(t) => old(self).processes@[pidx as int].spec_has_tid(t),
                None => true,
            },
        ensures
            final(self).caller_pid == old(self).caller_pid,
            final(self).caller_tid == old(self).caller_tid,
            final(self).processes@.len() == old(self).processes@.len(),
            forall|j: int|
                0 <= j < old(self).processes@.len() && j != pidx ==> final(self).processes@[j]
                    == old(self).processes@[j],
            match tid_hint {
                None => proc_delivered(
                    old(self).processes@[pidx as int],
                    final(self).processes@[pidx as int],
                    info.signo as usize,
                ),
                Some(t) => delivered_at(
                    old(self).processes@[pidx as int],
                    final(self).processes@[pidx as int],
                    tid_idx_in(old(self).processes@[pidx as int].threads@, t),
                    info.signo as usize,
                ),
            },
    {
        let signum = info.signo as usize;
        let k: usize = match tid_hint {
            Some(t) => thread_index(&self.processes[pidx], t),
            None => receiver_index(&self.processes[pidx], signum),
        };
        let mask: u64 = 1u64 << ((signum - 1) as u64);
        let p = &mut self.processes[pidx];
        let t = &mut p.threads[k];
        let bits = t.sig_pending.bits;
        t.sig_pending = Sigset { bits: bits | mask };
        t.waiting = false;
    }

    /// Whether any process is targeted by a `kill` with this `pid`.
    fn any_in_scope(&self, pid: isize, cpg: isize) -> (r: bool)
        ensures
            r == exists|j: int|
                0 <= j < self.processes@.len() && kill_scope(
                    #[trigger] self.processes@[j],
                    pid,
                    cpg,
                ),
    {
        let n = self.processes.len();
        let mut i: usize = 0;
        while i < n
            invariant
                n == self.processes@.len(),
                i <= n,
                forall|k: int|
                    0 <= k < i ==> !kill_scope(#[trigger] self.processes@[k], pid, cpg),
            decreases n - i,
        {
            if in_scope(&self.processes[i], pid, cpg) {
                return true;
            }
            i = i + 1;
        }
        false
    }

    /// Signals, process-directed, every process a `kill` with this `pid`
    /// targets, skipping the rest.
    fn deliver_scope(&mut self, pid: isize, cpg: isize, info: Siginfo)
        requires
            old(self).wf(),
            1 <= info.signo,
            signum_valid(info.signo as usize),
        ensures
            final(self).wf(),
            final(self).caller_pid == old(self).caller_pid,
            final(self).caller_tid == old(self).caller_tid,
            final(self).processes@.len() == old(self).processes@.len(),
            forall|j: int|
                0 <= j < old(self).processes@.len() && kill_scope(
                    #[trigger] old(self).processes@[j],
                    pid,
                    cpg,
                ) ==> proc_delivered(
                    old(self).processes@[j],
                    final(self).processes@[j],
                    info.signo as usize,
                ),
            forall|j: int|
                0 <= j < old(self).processes@.len() && !kill_scope(
                    #[trigger] old(self).processes@[j],
                    pid,
                    cpg,
                ) ==> final(self).processes@[j] == old(self).processes@[j],
    {
        let n = self.processes.len();
        let signum = info.signo as usize;
        let mut i: usize = 0;
        while i < n
            invariant
                old(self).wf(),
                1 <= info.signo,
                signum_valid(signum),
                signum == info.signo as usize,
                n == old(self).processes@.len(),
                self.processes@.len() == n,
                self.caller_pid == old(self).caller_pid,
                self.caller_tid == old(self).caller_tid,
                i <= n,
                forall|j: int| i <= j < n ==> self.processes@[j] == old(self).processes@[j],
                forall|j: int|
                    0 <= j < i && kill_scope(#[trigger] old(self).processes@[j], pid, cpg)
                        ==> proc_delivered(
                        old(self).processes@[j],
                        self.processes@[j],
                        signum,
                    ),
                forall|j: int|
                    0 <= j < i && !kill_scope(#[trigger] old(self).processes@[j], pid, cpg)
                        ==> self.processes@[j] == old(self).processes@[j],
            decreases n - i,
        {
            if in_scope(&self.processes[i], pid, cpg) {
                self.send_signal(i, None, info);
            }
            i = i + 1;
        }
        proof {
            let pre = *old(self);
            let post = *self;
            assert forall|i: int| 0 <= i < post.processes@.len() implies (
            #[trigger] post.processes@[i]).wf() by {
                assert(pre.processes@[i].wf());
                if kill_scope(pre.processes@[i], pid, cpg) {
                    lemma_receiver_idx_bounds(pre.processes@[i].threads@, signum);
                    lemma_delivered_wf(
                        pre.processes@[i],
                        post.processes@[i],
                        receiver_idx(pre.processes@[i].threads@, signum),
                        signum,
                    );
                }
            }
            assert forall|a: int, b: int|
                0 <= a < b < post.processes@.len() implies post.processes@[a].pid
                != post.processes@[b].pid by {
                assert(post.processes@[a].pid == pre.processes@[a].pid);
                assert(post.processes@[b].pid == pre.processes@[b].pid);
            }
            assert forall|q: int|
                0 <= q < pre.processes@.len() implies same_tids(
                #[trigger] pre.processes@[q],
                post.processes@[q],
            ) by {
                if kill_scope(pre.processes@[q], pid, cpg) {
                    lemma_receiver_idx_bounds(pre.processes@[q].threads@, signum);
                } else {
                    assert(post.processes@[q] == pre.processes@[q]);
                }
            }
            lemma_tid_disjoint_preserved(pre.processes@, post.processes@);
            let w = choose|w: int|
                0 <= w < pre.processes@.len() && pre.is_caller_proc(
                    #[trigger] pre.processes@[w],
                ) && pre.processes@[w].spec_has_tid(pre.caller_tid);
            if kill_scope(pre.processes@[w], pid, cpg) {
                lemma_receiver_idx_bounds(pre.processes@[w].threads@, signum);
                lemma_delivered_wf(
                    pre.processes@[w],
                    post.processes@[w],
                    receiver_idx(pre.processes@[w].threads@, signum),
                    signum,
                );
            }
            assert(post.is_caller_proc(post.processes@[w]) && post.processes@[w].spec_has_tid(
                post.caller_tid,
            ));
        }
    }

    /// Sends `signum`, as an explicit user request, to the process `pid`
    /// names, to the caller's process group (`pid == 0`), to every live
    /// process (`pid == -1`), or to the group `-pid` names (`pid < -1`).
    ///
    /// A missing explicitly named process or group is an error; a group or
    /// broadcast delivery skips stale table entries silently and does not
    /// fail partway.
    pub fn sys_kill(&mut self, pid: isize, signum: usize) -> (r: SysResult)
        requires
            old(self).wf(),
        ensures
            final(self).wf(),
            kill_tr(*old(self), *final(self), pid, signum, r),
    {
        if signal_from_usize(signum).is_none() {
            return Err(SysError::InvalidArgument);
        }
        let info = Siginfo { signo: signum as i32, errno: 0, code: SI_USER, field: 0 };
        let ci = self.caller_index();
        let cpg = self.processes[ci].pgid;
        if !self.any_in_scope(pid, cpg) {
            return Err(SysError::NoSuchProcess);
        }
        self.deliver_scope(pid, cpg, info);
        Ok(0)
    }

    /// Sends `signum`, as an explicit user request, to exactly the thread
    /// `tid` of the live process owning it; never to any other thread.
    pub fn sys_tkill(&mut self, tid: usize, signum: usize) -> (r: SysResult)
        requires
            old(self).wf(),
        ensures
            final(self).wf(),
            tkill_tr(*old(self), *final(self), tid, signum, r),
    {
        if signal_from_usize(signum).is_none() {
            return Err(SysError::InvalidArgument);
        }
        let info = Siginfo { signo: signum as i32, errno: 0, code: SI_USER, field: 0 };
        let n = self.processes.len();
        let mut i: usize = 0;
        while i < n
            invariant
                old(self).wf(),
                *self == *old(self),
                n == self.processes@.len(),
                i <= n,
                signum_valid(signum),
                signum == info.signo as usize,
                1 <= info.signo,
                info.code == SI_USER,
                forall|k: int|
                    0 <= k < i ==> !((#[trigger] self.processes@[k]).alive
                        && self.processes@[k].spec_has_tid(tid)),
            decreases n - i,
        {
            let p_alive = self.processes[i].alive;
            if p_alive && has_thread(&self.processes[i], tid) {
                proof {
                    lemma_owner_at(self.processes@, tid);
                    let f = owner_at(self.processes@, tid);
                    assert(f != -1);
                    assert(f == i as int);
                }
                self.send_signal(i, Some(tid), info);
                proof {
                    let pre = *old(self);
                    let post = *self;
                    assert forall|q: int| 0 <= q < post.processes@.len() implies (
                    #[trigger] post.processes@[q]).wf() by {
                        assert(pre.processes@[q].wf());
                        if q == i as int {
                            lemma_delivered_wf(
                                pre.processes@[q],
                                post.processes@[q],
                                tid_idx_in(pre.processes@[q].threads@, tid),
                                signum,
                            );
                        }
                    }
                    assert forall|a: int, b: int|
                        0 <= a < b < post.processes@.len() implies post.processes@[a].pid
                        != post.processes@[b].pid by {
                        assert(post.processes@[a].pid == pre.processes@[a].pid);
                        assert(post.processes@[b].pid == pre.processes@[b].pid);
                    }
                    assert forall|q: int|
                        0 <= q < pre.processes@.len() implies same_tids(
                        #[trigger] pre.processes@[q],
                        post.processes@[q],
                    ) by {
                        if q == i as int {
                            assert(pre.processes@[q].spec_has_tid(tid));
                            let ti = tid_idx_in(pre.processes@[q].threads@, tid);
                            assert(0 <= ti < pre.processes@[q].threads@.len());
                        } else {
                            assert(post.processes@[q] == pre.processes@[q]);
                        }
                    }
                    lemma_tid_disjoint_preserved(pre.processes@, post.processes@);
                    let w = choose|w: int|
                        0 <= w < pre.processes@.len() && pre.is_caller_proc(
                            #[trigger] pre.processes@[w],
                        ) && pre.processes@[w].spec_has_tid(pre.caller_tid);
                    if w == i as int {
                        lemma_delivered_wf(
                            pre.processes@[w],
                            post.processes@[w],
                            tid_idx_in(pre.processes@[w].threads@, tid),
                            signum,
                        );
                    }
                    assert(post.is_caller_proc(post.processes@[w])
                        && post.processes@[w].spec_has_tid(post.caller_tid));
                }
                return Ok(0);
            }
            i = i + 1;
        }
        proof {
            lemma_owner_at(self.processes@, tid);
        }
        Err(SysError::NoSuchProcess)
    }
}

} // verus!
