//! The per-thread and per-process signal state the subsystem operates on,
//! and the delivery-engine specification: which thread of a process receives
//! a process-directed signal, and what receiving one does to that thread.

use vstd::prelude::*;

use crate::signal::{
    default_action, default_stack, sig_bit, signum_valid, SignalAction, SignalStack, Sigset,
    TrapFrame, NSIG,
};

verus! {

/// The state a new thread starts in: empty mask, nothing pending, runnable,
/// zeroed trap frame.
pub open spec fn fresh_thread(tid: usize) -> Thread {
    Thread {
        tid,
        sig_mask: Sigset { bits: 0 },
        sig_pending: Sigset { bits: 0 },
        waiting: false,
        tf: TrapFrame {
            rax: 0,
            rbx: 0,
            rcx: 0,
            rdx: 0,
            rsi: 0,
            rdi: 0,
            rbp: 0,
            rsp: 0,
            rip: 0,
            rflags: 0,
        },
    }
}

/// A thread's signal state: its own mask, its pending set, whether it is
/// blocked in an interruptible wait, and its saved trap frame.
#[derive(Clone, Copy, PartialEq, Eq, Structural, Debug)]
pub struct Thread {
    pub tid: usize,
    /// Signals this thread has asked to have delivery deferred for. Mutated
    /// only by the thread's own `sigprocmask` call.
    pub sig_mask: Sigset,
    /// Signals raised for this thread and not yet delivered: a bit per
    /// signal, with no queueing of repeats.
    pub sig_pending: Sigset,
    /// Whether the thread is blocked waiting for something interruptible.
    pub waiting: bool,
    /// Register state saved when the thread entered the kernel.
    pub tf: TrapFrame,
}

impl Thread {
    pub fn new(tid: usize) -> (r: Thread)
        ensures
            r == fresh_thread(tid),
    {
        Thread {
            tid,
            sig_mask: Sigset { bits: 0 },
            sig_pending: Sigset { bits: 0 },
            waiting: false,
            tf: TrapFrame {
                rax: 0,
                rbx: 0,
                rcx: 0,
                rdx: 0,
                rsi: 0,
                rdi: 0,
                rbp: 0,
                rsp: 0,
                rip: 0,
                rflags: 0,
            },
        }
    }
}

/// A process record: identity, liveness, the signal state owned by the
/// process (disposition table, alternate-stack descriptor) and its threads.
#[derive(Debug)]
pub struct Process {
    pub pid: usize,
    /// Process-group id; a `kill` target can name a whole group.
    pub pgid: isize,
    /// Whether the record still stands for a live process: a stale entry of
    /// the process table resolves to "not found", never to a delivery.
    pub alive: bool,
    /// Disposition table, indexed by signal number; entry 0 is unused.
    pub dispositions: Vec<SignalAction>,
    /// Descriptor of the alternate stack used for handler execution.
    pub sigaltstack: SignalStack,
    pub threads: Vec<Thread>,
}

impl Process {
    /// A well-formed process has one table entry per signal number (plus the
    /// unused entry 0), at least one thread, and distinct thread ids.
    pub open spec fn wf(self) -> bool {
        &&& self.dispositions@.len() == NSIG + 1
        &&& self.threads@.len() >= 1
        &&& forall|a: int, b: int|
            0 <= a < b < self.threads@.len() ==> self.threads@[a].tid != self.threads@[b].tid
    }

    /// Whether some thread of this process has the id `tid`.
    pub open spec fn spec_has_tid(self, tid: usize) -> bool {
        exists|k: int| 0 <= k < self.threads@.len() && self.threads@[k].tid == tid
    }

    /// A fresh live process with default dispositions for every signal, no
    /// alternate stack and one initial thread.
    pub fn new(pid: usize, pgid: isize, main_tid: usize) -> (r: Process)
        ensures
            r.wf(),
            r.pid == pid,
            r.pgid == pgid,
            r.alive,
            r.sigaltstack == default_stack(),
            r.threads@ =~= seq![fresh_thread(main_tid)],
            forall|s: int|
                0 <= s < r.dispositions@.len() ==> r.dispositions@[s] == default_action(),
    {
        let mut dispositions: Vec<SignalAction> = Vec::new();
        let mut i: usize = 0;
        while i < NSIG + 1
            invariant
                i <= NSIG + 1,
                dispositions@.len() == i,
                forall|s: int|
                    0 <= s < i ==> dispositions@[s] == default_action(),
            decreases NSIG + 1 - i,
        {
            dispositions.push(SignalAction::default());
            i = i + 1;
        }
        let mut threads: Vec<Thread> = Vec::new();
        threads.push(Thread::new(main_tid));
        Process { pid, pgid, alive: true, dispositions, sigaltstack: SignalStack::default(), threads }
    }

    /// Decides well-formedness, for callers that receive a record from
    /// outside the verified world.
    pub fn is_wf(&self) -> (r: bool)
        ensures
            r == self.wf(),
    {
        if self.dispositions.len() != NSIG + 1 {
            return false;
        }
        let n = self.threads.len();
        if n == 0 {
            return false;
        }
        let mut a: usize = 0;
        while a < n
            invariant
                n == self.threads@.len(),
                a <= n,
                forall|x: int, y: int|
                    #![trigger self.threads@[x], self.threads@[y]]
                    0 <= x < y < n && x < a ==> self.threads@[x].tid != self.threads@[y].tid,
            decreases n - a,
        {
            let mut b: usize = a + 1;
            while b < n
                invariant
                    n == self.threads@.len(),
                    a < n,
                    a + 1 <= b <= n,
                    forall|y: int| a < y < b ==> self.threads@[a as int].tid != (
                    #[trigger] self.threads@[y]).tid,
                decreases n - b,
            {
                if self.threads[a].tid == self.threads[b].tid {
                    return false;
                }
                b = b + 1;
            }
            a = a + 1;
        }
        true
    }

    /// Adds one thread; its id must be new to this process.
    pub fn add_thread(&mut self, tid: usize)
        requires
            old(self).wf(),
            !old(self).spec_has_tid(tid),
        ensures
            final(self).wf(),
            final(self).threads@ == old(self).threads@.push(fresh_thread(tid)),
            final(self).pid == old(self).pid,
            final(self).pgid == old(self).pgid,
            final(self).alive == old(self).alive,
            final(self).dispositions@ == old(self).dispositions@,
            final(self).sigaltstack == old(self).sigaltstack,
    {
        self.threads.push(Thread::new(tid));
    }
}

/// `b` owns the same thread ids as `a`, position by position.
pub open spec fn same_tids(a: Process, b: Process) -> bool {
    &&& b.threads@.len() == a.threads@.len()
    &&& forall|k: int|
        0 <= k < a.threads@.len() ==> b.threads@[k].tid == (#[trigger] a.threads@[k]).tid
}

/// No thread id is owned by both processes.
pub open spec fn no_shared_tid(a: Process, b: Process) -> bool {
    forall|t: usize|
        #![trigger a.spec_has_tid(t), b.spec_has_tid(t)]
        !(a.spec_has_tid(t) && b.spec_has_tid(t))
}

/// Keeping every thread id keeps exactly the same ids owned.
pub proof fn lemma_same_tids_has_tid(a: Process, b: Process)
    requires
        same_tids(a, b),
    ensures
        forall|t: usize| #[trigger] b.spec_has_tid(t) <==> a.spec_has_tid(t),
{
    assert forall|t: usize| #[trigger] b.spec_has_tid(t) <==> a.spec_has_tid(t) by {
        if a.spec_has_tid(t) {
            let k = choose|k: int| 0 <= k < a.threads@.len() && a.threads@[k].tid == t;
            assert(b.threads@[k].tid == t);
        }
        if b.spec_has_tid(t) {
            let k = choose|k: int| 0 <= k < b.threads@.len() && b.threads@[k].tid == t;
            assert(a.threads@[k].tid == t);
        }
    }
}

/// A table whose processes all keep their thread ids keeps its thread ids
/// disjoint across processes.
pub proof fn lemma_tid_disjoint_preserved(pre: Seq<Process>, post: Seq<Process>)
    requires
        post.len() == pre.len(),
        forall|i: int, j: int|
            #![trigger pre[i], pre[j]]
            0 <= i < j < pre.len() ==> no_shared_tid(pre[i], pre[j]),
        forall|q: int| 0 <= q < pre.len() ==> same_tids(#[trigger] pre[q], post[q]),
    ensures
        forall|i: int, j: int|
            #![trigger post[i], post[j]]
            0 <= i < j < post.len() ==> no_shared_tid(post[i], post[j]),
{
    assert forall|i: int, j: int|
        0 <= i < j < post.len() implies no_shared_tid(#[trigger] post[i], #[trigger] post[j]) by {
        lemma_same_tids_has_tid(pre[i], post[i]);
        lemma_same_tids_has_tid(pre[j], post[j]);
        assert(no_shared_tid(pre[i], pre[j]));
        assert forall|t: usize|
            #![trigger post[i].spec_has_tid(t), post[j].spec_has_tid(t)]
            !(post[i].spec_has_tid(t) && post[j].spec_has_tid(t)) by {
            assert(!(pre[i].spec_has_tid(t) && pre[j].spec_has_tid(t)));
        }
    }
}

/// The thread after a signal has been marked pending on it: the signal's bit
/// is set (idempotently: re-raising a pending signal queues nothing), and
/// the thread is no longer waiting.
pub open spec fn thread_signaled(t: Thread, signum: usize) -> Thread
    recommends
        signum_valid(signum),
{
    Thread {
        sig_pending: Sigset { bits: t.sig_pending.bits | sig_bit(signum) },
        waiting: false,
        ..t
    }
}

/// Whether this thread currently blocks `signum`.
pub open spec fn blocks(t: Thread, signum: usize) -> bool
    recommends
        signum_valid(signum),
{
    t.sig_mask.spec_has(signum)
}

/// Index of the first thread not blocking `signum`, or `-1` when every
/// thread blocks it.
pub open spec fn first_unblocked(threads: Seq<Thread>, signum: usize) -> int
    decreases threads.len(),
{
    if threads.len() == 0 {
        -1
    } else if !blocks(threads[0], signum) {
        0
    } else {
        let rest = first_unblocked(threads.drop_first(), signum);
        if rest < 0 {
            -1
        } else {
            rest + 1
        }
    }
}

pub proof fn lemma_first_unblocked(threads: Seq<Thread>, signum: usize)
    ensures
        first_unblocked(threads, signum) == -1 ==> forall|k: int|
            0 <= k < threads.len() ==> blocks(#[trigger] threads[k], signum),
        first_unblocked(threads, signum) >= 0 ==> {
            let f = first_unblocked(threads, signum);
            &&& 0 <= f < threads.len()
            &&& !blocks(threads[f], signum)
            &&& forall|k: int| 0 <= k < f ==> blocks(#[trigger] threads[k], signum)
        },
    decreases threads.len(),
{
    if threads.len() > 0 && blocks(threads[0], signum) {
        lemma_first_unblocked(threads.drop_first(), signum);
        assert forall|k: int| 1 <= k < threads.len() implies threads.drop_first()[k - 1] == threads[k] by {}
    }
}

/// The thread a process-directed signal lands on: the first thread not
/// blocking it, or the first thread of the process when all of them do.
pub open spec fn receiver_idx(threads: Seq<Thread>, signum: usize) -> int
    recommends
        threads.len() >= 1,
{
    let f = first_unblocked(threads, signum);
    if f >= 0 {
        f
    } else {
        0
    }
}

/// A nonempty thread list always yields an in-range receiver.
pub proof fn lemma_receiver_idx_bounds(threads: Seq<Thread>, signum: usize)
    requires
        threads.len() >= 1,
    ensures
        0 <= receiver_idx(threads, signum) < threads.len(),
{
    lemma_first_unblocked(threads, signum);
}

/// The process after `signum` was marked pending on its thread `j`: that
/// thread is replaced by its signaled state and nothing else changes.
pub open spec fn delivered_at(pre: Process, post: Process, j: int, signum: usize) -> bool
    recommends
        0 <= j < pre.threads@.len(),
        signum_valid(signum),
{
    &&& post.pid == pre.pid
    &&& post.pgid == pre.pgid
    &&& post.alive == pre.alive
    &&& post.dispositions@ == pre.dispositions@
    &&& post.sigaltstack == pre.sigaltstack
    &&& post.threads@ == pre.threads@.update(j, thread_signaled(pre.threads@[j], signum))
}

/// The process after a process-directed delivery of `signum`: the receiving
/// thread is the one `receiver_idx` names.
pub open spec fn proc_delivered(pre: Process, post: Process, signum: usize) -> bool
    recommends
        pre.threads@.len() >= 1,
        signum_valid(signum),
{
    delivered_at(pre, post, receiver_idx(pre.threads@, signum), signum)
}

/// Delivery touches one thread's pending set, wait state and nothing else:
/// it keeps the process well formed and keeps every thread id.
pub proof fn lemma_delivered_wf(pre: Process, post: Process, j: int, signum: usize)
    requires
        pre.wf(),
        0 <= j < pre.threads@.len(),
        delivered_at(pre, post, j, signum),
    ensures
        post.wf(),
        forall|t: usize| #[trigger] post.spec_has_tid(t) <==> pre.spec_has_tid(t),
{
    assert forall|t: usize| #[trigger] post.spec_has_tid(t) <==> pre.spec_has_tid(t) by {
        if pre.spec_has_tid(t) {
            let k = choose|k: int| 0 <= k < pre.threads@.len() && pre.threads@[k].tid == t;
            assert(post.threads@[k].tid == t);
        }
        if post.spec_has_tid(t) {
            let k = choose|k: int| 0 <= k < post.threads@.len() && post.threads@[k].tid == t;
            assert(pre.threads@[k].tid == t);
        }
    }
}

} // verus!
