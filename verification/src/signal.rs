//! Signal identity, signal sets, dispositions, delivery records and the
//! descriptors that cross the user/kernel boundary.

use vstd::prelude::*;

verus! {

/// Highest signal number of this ABI; valid signal numbers are `1..=NSIG`.
pub const NSIG: usize = 64;

pub const SIGHUP: usize = 1;
pub const SIGINT: usize = 2;
pub const SIGKILL: usize = 9;
pub const SIGUSR1: usize = 10;
pub const SIGTERM: usize = 15;
pub const SIGSTOP: usize = 19;

/// A raw number denotes a signal exactly when it lies in `[1, NSIG]`.
pub open spec fn signum_valid(signum: usize) -> bool {
    1 <= signum <= NSIG
}

/// Total parse from a raw number to a signal number: `Some` exactly on
/// `[1, NSIG]`. The chokepoint that keeps bogus signal numbers out of the
/// rest of the subsystem.
pub fn signal_from_usize(signum: usize) -> (r: Option<usize>)
    ensures
        r is Some <==> signum_valid(signum),
        r is Some ==> r == Some(signum),
{
    if 1 <= signum && signum <= NSIG {
        Some(signum)
    } else {
        None
    }
}

/// The bit that stands for `signum` in a signal set (signal 1 is bit 0).
pub open spec fn sig_bit(signum: usize) -> u64
    recommends
        signum_valid(signum),
{
    1u64 << ((signum - 1) as u64)
}

/// A fixed-width (64-bit, one per signal) set of signal numbers.
#[derive(Clone, Copy, PartialEq, Eq, Structural, Debug)]
pub struct Sigset {
    pub bits: u64,
}

impl Sigset {
    /// Whether `signum` is a member of the set.
    pub open spec fn spec_has(self, signum: usize) -> bool
        recommends
            signum_valid(signum),
    {
        self.bits & sig_bit(signum) != 0
    }

    pub fn empty() -> (r: Sigset)
        ensures
            r.bits == 0,
    {
        Sigset { bits: 0 }
    }

    /// Set union: used by the `BLOCK` form of the mask update.
    pub fn add_set(&mut self, other: &Sigset)
        ensures
            final(self).bits == old(self).bits | other.bits,
    {
        self.bits = self.bits | other.bits;
    }

    /// Set difference: used by the `UNBLOCK` form of the mask update.
    pub fn remove_set(&mut self, other: &Sigset)
        ensures
            final(self).bits == old(self).bits & !other.bits,
    {
        self.bits = self.bits & !other.bits;
    }

    pub fn contains(&self, signum: usize) -> (r: bool)
        requires
            signum_valid(signum),
        ensures
            r == self.spec_has(signum),
    {
        self.bits & (1u64 << ((signum - 1) as u64)) != 0
    }
}

/// Setting a signal's bit makes the signal a member, whatever else the set
/// already holds.
pub proof fn lemma_sig_bit_pending(bits: u64, signum: usize)
    requires
        signum_valid(signum),
    ensures
        (Sigset { bits: bits | sig_bit(signum) }).spec_has(signum),
{
    let sh = (signum - 1) as u64;
    assert(((bits | (1u64 << sh)) & (1u64 << sh)) != 0u64) by (bit_vector)
        requires
            sh < 64,
    ;
}

/// Per-signal, per-process disposition: what to do when the signal is
/// delivered. `handler` is an address or a default/ignore sentinel; the
/// record is stored verbatim, with no field-level sanitization.
#[derive(Clone, Copy, PartialEq, Eq, Structural, Debug)]
pub struct SignalAction {
    pub handler: u64,
    pub mask: Sigset,
    pub flags: u64,
    pub restorer: u64,
}

/// The disposition every table entry starts from: default action, empty
/// handler mask, no flags, no restorer.
pub open spec fn default_action() -> SignalAction {
    SignalAction { handler: 0, mask: Sigset { bits: 0 }, flags: 0, restorer: 0 }
}

impl Default for SignalAction {
    fn default() -> (r: SignalAction)
        ensures
            r == default_action(),
    {
        SignalAction { handler: 0, mask: Sigset { bits: 0 }, flags: 0, restorer: 0 }
    }
}

/// Origin tag of a `Siginfo` raised by an explicit user request
/// (`kill`/`tkill`).
pub const SI_USER: i32 = 0;

/// Why a signal was raised: signal number, error number, origin tag and an
/// auxiliary payload. Constructed fresh per delivery.
#[derive(Clone, Copy, PartialEq, Eq, Structural, Debug)]
pub struct Siginfo {
    pub signo: i32,
    pub errno: i32,
    pub code: i32,
    pub field: u64,
}

/// Handler is currently executing on the alternate stack; while set, the
/// descriptor is immutable.
pub const SS_ONSTACK: u32 = 1;

/// The alternate stack is disabled.
pub const SS_DISABLE: u32 = 2;

/// Clear the alternate-stack settings on handler entry.
pub const SS_AUTODISARM: u32 = 0x8000000;

/// The only flag bits a new alternate-stack descriptor may carry.
pub const SS_ALLOWED_FLAGS: u32 = SS_AUTODISARM | SS_DISABLE;

/// Smallest usable alternate-stack size.
pub const MINSIGSTKSZ: usize = 2048;

/// Descriptor of the per-process alternate stack used for handler execution.
#[derive(Clone, Copy, PartialEq, Eq, Structural, Debug)]
pub struct SignalStack {
    pub sp: u64,
    pub flags: u32,
    pub size: usize,
}

/// The descriptor of a process that has configured no alternate stack.
pub open spec fn default_stack() -> SignalStack {
    SignalStack { sp: 0, flags: SS_DISABLE, size: 0 }
}

impl Default for SignalStack {
    fn default() -> (r: SignalStack)
        ensures
            r == default_stack(),
    {
        SignalStack { sp: 0, flags: SS_DISABLE, size: 0 }
    }
}

/// Saved register state of a thread at the moment it entered the kernel.
#[derive(Clone, Copy, PartialEq, Eq, Structural, Debug)]
pub struct TrapFrame {
    pub rax: u64,
    pub rbx: u64,
    pub rcx: u64,
    pub rdx: u64,
    pub rsi: u64,
    pub rdi: u64,
    pub rbp: u64,
    pub rsp: u64,
    pub rip: u64,
    pub rflags: u64,
}

/// What the delivery path writes onto the handler stack just before
/// transferring control to user mode, and what `sigreturn` consumes,
/// exactly once, to restore the interrupted state.
#[derive(Clone, Copy, PartialEq, Eq, Structural, Debug)]
pub struct SignalFrame {
    /// Where the trampoline returns to.
    pub ret_code_addr: u64,
    /// The trapped register state to restore.
    pub tf: TrapFrame,
    /// The delivery record handed to the handler.
    pub info: Siginfo,
}

} // verus!
