//! The error taxonomy of the syscall surface, and the numeric codes under
//! which errors travel through a trap frame's result register.

use vstd::prelude::*;

verus! {

/// Numeric code of `PermissionDenied`.
pub const EPERM: u64 = 1;

/// Numeric code of `NoSuchProcess`.
pub const ESRCH: u64 = 3;

/// Numeric code of `OutOfMemory`.
pub const ENOMEM: u64 = 12;

/// Numeric code of `InvalidArgument`.
pub const EINVAL: u64 = 22;

/// Every failure a call of this subsystem can surface.
#[derive(Clone, Copy, PartialEq, Eq, Structural, Debug)]
pub enum SysError {
    /// Unknown signal number, wrong fixed set size, an attempt to change the
    /// `SIGKILL`/`SIGSTOP` dispositions, an unknown mask-update operation, or
    /// a disallowed alternate-stack flag bit.
    InvalidArgument,
    /// Alternate stack requested below the minimum size.
    OutOfMemory,
    /// The named process, group or thread owner does not exist.
    NoSuchProcess,
    /// Alternate-stack change attempted while the current one is active.
    PermissionDenied,
}

/// What a syscall returns: a non-negative result, or an error whose numeric
/// code is carried negated in the result register.
pub type SysResult = Result<u64, SysError>;

/// The numeric code of each error kind.
pub open spec fn error_code(e: SysError) -> u64 {
    match e {
        SysError::PermissionDenied => EPERM,
        SysError::NoSuchProcess => ESRCH,
        SysError::OutOfMemory => ENOMEM,
        SysError::InvalidArgument => EINVAL,
    }
}

/// Whether some error kind carries this numeric code.
pub open spec fn known_error_code(code: u64) -> bool {
    code == EPERM || code == ESRCH || code == ENOMEM || code == EINVAL
}

/// The numeric code under which an error leaves through the syscall ABI.
pub fn code_of_error(e: SysError) -> (r: u64)
    ensures
        r == error_code(e),
{
    match e {
        SysError::PermissionDenied => EPERM,
        SysError::NoSuchProcess => ESRCH,
        SysError::OutOfMemory => ENOMEM,
        SysError::InvalidArgument => EINVAL,
    }
}

/// The error kind behind a numeric code; meaningful on the known codes.
pub open spec fn error_of_code(code: u64) -> SysError
    recommends
        known_error_code(code),
{
    if code == EPERM {
        SysError::PermissionDenied
    } else if code == ESRCH {
        SysError::NoSuchProcess
    } else if code == ENOMEM {
        SysError::OutOfMemory
    } else {
        SysError::InvalidArgument
    }
}

/// The inverse of `error_code`: `Some` exactly on the known codes, and then
/// the kind whose code was given.
pub fn error_from_code(code: u64) -> (r: Option<SysError>)
    ensures
        r is Some <==> known_error_code(code),
        r is Some ==> error_code(r->0) == code,
{
    if code == EPERM {
        Some(SysError::PermissionDenied)
    } else if code == ESRCH {
        Some(SysError::NoSuchProcess)
    } else if code == ENOMEM {
        Some(SysError::OutOfMemory)
    } else if code == EINVAL {
        Some(SysError::InvalidArgument)
    } else {
        None
    }
}

} // verus!
