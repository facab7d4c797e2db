//! Laws that relate several calls of the syscall surface, proved from the
//! transition predicates alone.

use vstd::prelude::*;

use crate::error::{SysError, SysResult};
use crate::process::{
    first_unblocked, lemma_receiver_idx_bounds, lemma_tid_disjoint_preserved, proc_delivered,
    receiver_idx, same_tids, thread_signaled, Process, Thread,
};
use crate::signal::{
    lemma_sig_bit_pending, sig_bit, signum_valid, SignalAction, SignalStack, Sigset, SIGKILL,
    SIGSTOP,
};
use crate::syscall::{
    kill_scope, kill_tr, lemma_owner_at, owner_at, sigaction_allowed, sigaction_tr,
    sigaltstack_tr, sigprocmask_tr, tid_idx_in, tkill_tr, Syscall, SIGSETSIZE, SIG_BLOCK,
    SIG_SETMASK,
};

verus! {

/// The call kept every process's identity: id, group, liveness, thread
/// count and every thread's id, as well as the table width.
pub open spec fn identity_preserved(a: Process, b: Process) -> bool {
    &&& b.pid == a.pid
    &&& b.pgid == a.pgid
    &&& b.alive == a.alive
    &&& b.dispositions@.len() == a.dispositions@.len()
    &&& b.threads@.len() == a.threads@.len()
    &&& forall|k: int| 0 <= k < a.threads@.len() ==> b.threads@[k].tid == (#[trigger] a.threads@[k]).tid
}

/// A call that keeps every process's identity keeps the state well formed
/// and keeps the caller at the same process and thread index.
pub proof fn lemma_caller_idx_preserved(pre: Syscall, post: Syscall)
    requires
        pre.wf(),
        post.caller_pid == pre.caller_pid,
        post.caller_tid == pre.caller_tid,
        post.processes@.len() == pre.processes@.len(),
        forall|j: int|
            0 <= j < pre.processes@.len() ==> identity_preserved(
                #[trigger] pre.processes@[j],
                post.processes@[j],
            ),
    ensures
        post.wf(),
        post.caller_idx() == pre.caller_idx(),
        post.caller_thread_idx() == pre.caller_thread_idx(),
{
    let n = pre.processes@.len();
    let ci = pre.caller_idx();
    assert(0 <= ci < n && pre.is_caller_proc(pre.processes@[ci]) && pre.processes@[
        ci
    ].spec_has_tid(pre.caller_tid));
    assert forall|i: int| 0 <= i < n implies (#[trigger] post.processes@[i]).wf() by {
        assert(pre.processes@[i].wf());
        assert(identity_preserved(pre.processes@[i], post.processes@[i]));
        assert forall|a: int, b: int|
            0 <= a < b < post.processes@[i].threads@.len() implies post.processes@[i].threads@[a].tid
            != post.processes@[i].threads@[b].tid by {
            assert(pre.processes@[i].threads@[a].tid != pre.processes@[i].threads@[b].tid);
        }
    }
    assert forall|a: int, b: int|
        0 <= a < b < n implies post.processes@[a].pid != post.processes@[b].pid by {
        assert(identity_preserved(pre.processes@[a], post.processes@[a]));
        assert(identity_preserved(pre.processes@[b], post.processes@[b]));
    }
    assert forall|q: int|
        0 <= q < n implies same_tids(#[trigger] pre.processes@[q], post.processes@[q]) by {
        assert(identity_preserved(pre.processes@[q], post.processes@[q]));
    }
    lemma_tid_disjoint_preserved(pre.processes@, post.processes@);
    let kw = choose|k: int|
        0 <= k < pre.processes@[ci].threads@.len() && pre.processes@[ci].threads@[k].tid
            == pre.caller_tid;
    assert(post.processes@[ci].threads@[kw].tid == pre.caller_tid);
    assert(post.processes@[ci].spec_has_tid(post.caller_tid));
    assert(post.is_caller_proc(post.processes@[ci]));
    assert(exists|i: int|
        0 <= i < post.processes@.len() && post.is_caller_proc(#[trigger] post.processes@[i])
            && post.processes@[i].spec_has_tid(post.caller_tid));
    let c2 = post.caller_idx();
    assert(0 <= c2 < n && post.is_caller_proc(post.processes@[c2]) && post.processes@[
        c2
    ].spec_has_tid(post.caller_tid));
    if c2 != ci {
        assert(identity_preserved(pre.processes@[c2], post.processes@[c2]));
        assert(pre.processes@[c2].pid == pre.caller_pid);
        if c2 < ci {
            assert(pre.processes@[c2].pid != pre.processes@[ci].pid);
        } else {
            assert(pre.processes@[ci].pid != pre.processes@[c2].pid);
        }
        assert(false);
    }
    let ti = tid_idx_in(pre.processes@[ci].threads@, pre.caller_tid);
    assert(0 <= ti < pre.processes@[ci].threads@.len() && pre.processes@[ci].threads@[ti].tid
        == pre.caller_tid);
    assert(post.processes@[ci].threads@[ti].tid == post.caller_tid);
    assert(exists|k: int|
        0 <= k < post.processes@[ci].threads@.len() && post.processes@[ci].threads@[k].tid
            == post.caller_tid);
    let t2 = tid_idx_in(post.processes@[ci].threads@, post.caller_tid);
    assert(0 <= t2 < post.processes@[ci].threads@.len() && post.processes@[ci].threads@[t2].tid
        == post.caller_tid);
    if t2 != ti {
        assert(pre.processes@[ci].wf());
        assert(pre.processes@[ci].threads@[t2].tid == pre.caller_tid);
        if t2 < ti {
            assert(pre.processes@[ci].threads@[t2].tid != pre.processes@[ci].threads@[ti].tid);
        } else {
            assert(pre.processes@[ci].threads@[ti].tid != pre.processes@[ci].threads@[t2].tid);
        }
        assert(false);
    }
}

/// Registering a disposition and then registering the returned old one
/// round-trips: the second call reads back exactly the first new action,
/// and the table ends as it began.
pub proof fn lemma_sigaction_round_trip(
    s0: Syscall,
    s1: Syscall,
    s2: Syscall,
    signum: usize,
    a: SignalAction,
    old1: SignalAction,
    old2: SignalAction,
)
    requires
        s0.wf(),
        sigaction_allowed(signum, SIGSETSIZE),
        sigaction_tr(s0, s1, signum, Some(a), true, SIGSETSIZE, Some(old1), Ok(0)),
        sigaction_tr(s1, s2, signum, Some(old1), true, SIGSETSIZE, Some(old2), Ok(0)),
    ensures
        old2 == a,
        s2.processes@[s0.caller_idx()].dispositions@ == s0.processes@[
            s0.caller_idx()
        ].dispositions@,
{
    let ci = s0.caller_idx();
    assert(0 <= ci < s0.processes@.len() && s0.is_caller_proc(s0.processes@[ci])
        && s0.processes@[ci].spec_has_tid(s0.caller_tid));
    assert(s0.processes@[ci].wf());
    assert forall|j: int|
        0 <= j < s0.processes@.len() implies identity_preserved(
        #[trigger] s0.processes@[j],
        s1.processes@[j],
    ) by {}
    lemma_caller_idx_preserved(s0, s1);
    assert(old1 == s0.caller_disposition(signum));
    assert(s1.processes@[ci].dispositions@ == s0.processes@[ci].dispositions@.update(
        signum as int,
        a,
    ));
    assert(old2 == s1.caller_disposition(signum));
    assert(old2 == a);
    assert(s2.processes@[ci].dispositions@ == s1.processes@[ci].dispositions@.update(
        signum as int,
        old1,
    ));
    assert(s2.processes@[ci].dispositions@ =~= s0.processes@[ci].dispositions@);
}

/// The `SIGKILL` and `SIGSTOP` dispositions are immutable: any attempt to
/// touch them fails with `InvalidArgument` and leaves every process's
/// state unchanged.
pub proof fn lemma_sigkill_sigstop_immutable(
    pre: Syscall,
    post: Syscall,
    signum: usize,
    act: Option<SignalAction>,
    want_old: bool,
    sigsetsize: usize,
    old_out: Option<SignalAction>,
    r: SysResult,
)
    requires
        signum == SIGKILL || signum == SIGSTOP,
        sigaction_tr(pre, post, signum, act, want_old, sigsetsize, old_out, r),
    ensures
        r == Err::<u64, SysError>(SysError::InvalidArgument),
        post.processes@ == pre.processes@,
{
}

/// A set size other than 8 bytes fails a disposition call with
/// `InvalidArgument` before anything is read or written.
pub proof fn lemma_sigaction_wrong_setsize(
    pre: Syscall,
    post: Syscall,
    signum: usize,
    act: Option<SignalAction>,
    want_old: bool,
    sigsetsize: usize,
    old_out: Option<SignalAction>,
    r: SysResult,
)
    requires
        sigsetsize != SIGSETSIZE,
        sigaction_tr(pre, post, signum, act, want_old, sigsetsize, old_out, r),
    ensures
        r == Err::<u64, SysError>(SysError::InvalidArgument),
        old_out is None,
        post.processes@ == pre.processes@,
{
}

/// A set size other than 8 bytes fails a mask call with `InvalidArgument`
/// before anything is read or written.
pub proof fn lemma_sigprocmask_wrong_setsize(
    pre: Syscall,
    post: Syscall,
    how: usize,
    set: Option<Sigset>,
    want_old: bool,
    sigsetsize: usize,
    old_out: Option<Sigset>,
    r: SysResult,
)
    requires
        sigsetsize != SIGSETSIZE,
        sigprocmask_tr(pre, post, how, set, want_old, sigsetsize, old_out, r),
    ensures
        r == Err::<u64, SysError>(SysError::InvalidArgument),
        old_out is None,
        post.processes@ == pre.processes@,
{
}

/// Old state is read before new state is applied: past the set-size check,
/// a mask call always hands back the pre-call mask when asked to — even
/// when an unknown `how` then fails the call — so a caller never observes
/// its own new value.
pub proof fn lemma_sigprocmask_old_read_first(
    pre: Syscall,
    post: Syscall,
    how: usize,
    set: Option<Sigset>,
    sigsetsize: usize,
    old_out: Option<Sigset>,
    r: SysResult,
)
    requires
        sigsetsize == SIGSETSIZE,
        sigprocmask_tr(pre, post, how, set, true, sigsetsize, old_out, r),
    ensures
        old_out == Some(pre.caller_mask()),
{
}

/// Old state is read before new state is applied: an alternate-stack call
/// always hands back the pre-call descriptor when asked to, whether or not
/// the new descriptor is then rejected, so a caller never observes its own
/// new value.
pub proof fn lemma_sigaltstack_old_read_first(
    pre: Syscall,
    post: Syscall,
    ss: Option<SignalStack>,
    old_out: Option<SignalStack>,
    r: SysResult,
)
    requires
        sigaltstack_tr(pre, post, ss, true, old_out, r),
    ensures
        old_out == Some(pre.caller_stack()),
{
}

/// Blocking twice accumulates: after `BLOCK S1; BLOCK S2` the calling
/// thread's mask holds exactly its old bits together with `S1 | S2`.
pub proof fn lemma_sigprocmask_block_accumulates(
    s0: Syscall,
    s1: Syscall,
    s2: Syscall,
    set1: Sigset,
    set2: Sigset,
    wo1: bool,
    wo2: bool,
    o1: Option<Sigset>,
    o2: Option<Sigset>,
    r1: SysResult,
    r2: SysResult,
)
    requires
        s0.wf(),
        sigprocmask_tr(s0, s1, SIG_BLOCK, Some(set1), wo1, SIGSETSIZE, o1, r1),
        sigprocmask_tr(s1, s2, SIG_BLOCK, Some(set2), wo2, SIGSETSIZE, o2, r2),
    ensures
        s1.wf(),
        s2.caller_mask().bits == s0.caller_mask().bits | set1.bits | set2.bits,
{
    let ci = s0.caller_idx();
    let ti = s0.caller_thread_idx();
    assert(0 <= ci < s0.processes@.len() && s0.is_caller_proc(s0.processes@[ci])
        && s0.processes@[ci].spec_has_tid(s0.caller_tid));
    assert(s0.processes@[ci].wf());
    assert(0 <= ti < s0.processes@[ci].threads@.len() && s0.processes@[ci].threads@[ti].tid
        == s0.caller_tid);
    assert forall|j: int|
        0 <= j < s0.processes@.len() implies identity_preserved(
        #[trigger] s0.processes@[j],
        s1.processes@[j],
    ) by {}
    lemma_caller_idx_preserved(s0, s1);
    assert(s1.caller_mask().bits == s0.caller_mask().bits | set1.bits);
    assert forall|j: int|
        0 <= j < s1.processes@.len() implies identity_preserved(
        #[trigger] s1.processes@[j],
        s2.processes@[j],
    ) by {}
    lemma_caller_idx_preserved(s1, s2);
    assert(s2.caller_mask().bits == s1.caller_mask().bits | set2.bits);
}

/// `SETMASK` is exact: afterwards the calling thread's mask is the given
/// set, whatever it held before.
pub proof fn lemma_sigprocmask_setmask_exact(
    s0: Syscall,
    s1: Syscall,
    set: Sigset,
    want_old: bool,
    old_out: Option<Sigset>,
    r: SysResult,
)
    requires
        s0.wf(),
        sigprocmask_tr(s0, s1, SIG_SETMASK, Some(set), want_old, SIGSETSIZE, old_out, r),
    ensures
        s1.wf(),
        s1.caller_mask() == set,
{
    let ci = s0.caller_idx();
    let ti = s0.caller_thread_idx();
    assert(0 <= ci < s0.processes@.len() && s0.is_caller_proc(s0.processes@[ci])
        && s0.processes@[ci].spec_has_tid(s0.caller_tid));
    assert(s0.processes@[ci].wf());
    assert(0 <= ti < s0.processes@[ci].threads@.len() && s0.processes@[ci].threads@[ti].tid
        == s0.caller_tid);
    assert forall|j: int|
        0 <= j < s0.processes@.len() implies identity_preserved(
        #[trigger] s0.processes@[j],
        s1.processes@[j],
    ) by {}
    lemma_caller_idx_preserved(s0, s1);
}

/// A group `kill` succeeds on a nonempty group and every member process
/// observes the signal pending on its receiving thread.
pub proof fn lemma_kill_group_marks_pending(
    pre: Syscall,
    post: Syscall,
    pid: isize,
    signum: usize,
    r: SysResult,
    j: int,
)
    requires
        pre.wf(),
        signum_valid(signum),
        pid < -1,
        kill_tr(pre, post, pid, signum, r),
        0 <= j < pre.processes@.len(),
        pre.processes@[j].alive,
        pre.processes@[j].pgid == -pid,
    ensures
        r == Ok::<u64, SysError>(0),
        post.processes@[j].threads@[receiver_idx(pre.processes@[j].threads@, signum)].sig_pending
            .spec_has(signum),
{
    let cpg = pre.processes@[pre.caller_idx()].pgid;
    assert(kill_scope(pre.processes@[j], pid, cpg));
    assert(pre.processes@[j].wf());
    lemma_receiver_idx_bounds(pre.processes@[j].threads@, signum);
    let k = receiver_idx(pre.processes@[j].threads@, signum);
    lemma_sig_bit_pending(pre.processes@[j].threads@[k].sig_pending.bits, signum);
}

/// Threads with the same masks block the same signals in the same order,
/// so the receiver choice depends on the masks alone.
pub proof fn lemma_first_unblocked_same_masks(t1: Seq<Thread>, t2: Seq<Thread>, signum: usize)
    requires
        t1.len() == t2.len(),
        forall|k: int| 0 <= k < t1.len() ==> (#[trigger] t1[k]).sig_mask == t2[k].sig_mask,
    ensures
        first_unblocked(t1, signum) == first_unblocked(t2, signum),
    decreases t1.len(),
{
    if t1.len() > 0 {
        assert forall|k: int|
            0 <= k < t1.drop_first().len() implies (#[trigger] t1.drop_first()[k]).sig_mask
            == t2.drop_first()[k].sig_mask by {
            assert(t1[k + 1].sig_mask == t2[k + 1].sig_mask);
        }
        lemma_first_unblocked_same_masks(t1.drop_first(), t2.drop_first(), signum);
    }
}

/// The pending bit is idempotent: re-raising an already-pending,
/// not-yet-delivered signal queues nothing — a second process-directed
/// delivery of the same signal leaves every thread exactly as the first
/// left it.
pub proof fn lemma_delivery_idempotent(p0: Process, p1: Process, p2: Process, signum: usize)
    requires
        p0.wf(),
        signum_valid(signum),
        proc_delivered(p0, p1, signum),
        proc_delivered(p1, p2, signum),
    ensures
        p2.threads@ == p1.threads@,
{
    lemma_receiver_idx_bounds(p0.threads@, signum);
    let j = receiver_idx(p0.threads@, signum);
    assert forall|k: int|
        0 <= k < p0.threads@.len() implies (#[trigger] p0.threads@[k]).sig_mask
        == p1.threads@[k].sig_mask by {}
    lemma_first_unblocked_same_masks(p0.threads@, p1.threads@, signum);
    assert(receiver_idx(p1.threads@, signum) == j);
    let t1 = p1.threads@[j];
    let m: u64 = sig_bit(signum);
    let b0: u64 = p0.threads@[j].sig_pending.bits;
    assert((b0 | m) | m == b0 | m) by (bit_vector);
    assert(thread_signaled(t1, signum) == t1);
    assert(p2.threads@ =~= p1.threads@);
}

/// `tkill` never affects a thread other than the one it names, whichever
/// way the call ends.
pub proof fn lemma_tkill_targets_only_named(
    pre: Syscall,
    post: Syscall,
    tid: usize,
    signum: usize,
    r: SysResult,
    j: int,
    k: int,
)
    requires
        pre.wf(),
        tkill_tr(pre, post, tid, signum, r),
        0 <= j < pre.processes@.len(),
        0 <= k < pre.processes@[j].threads@.len(),
        pre.processes@[j].threads@[k].tid != tid,
    ensures
        post.processes@[j].threads@[k] == pre.processes@[j].threads@[k],
{
    if signum_valid(signum) {
        let oi = owner_at(pre.processes@, tid);
        lemma_owner_at(pre.processes@, tid);
        if oi >= 0 && j == oi {
            let ti = tid_idx_in(pre.processes@[oi].threads@, tid);
            assert(pre.processes@[oi].spec_has_tid(tid));
            assert(0 <= ti < pre.processes@[oi].threads@.len() && pre.processes@[
                oi
            ].threads@[ti].tid == tid);
            assert(k != ti);
        }
    }
}

} // verus!
