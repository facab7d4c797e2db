use sigcore::error::{error_from_code, SysError};
use sigcore::signal::{signal_from_usize, Sigset, NSIG, SIGHUP, SIGINT, SIGKILL, SIGTERM};

#[test]
fn signal_parse_accepts_exactly_one_through_nsig() {
    assert_eq!(signal_from_usize(0), None);
    assert_eq!(signal_from_usize(SIGHUP), Some(SIGHUP));
    assert_eq!(signal_from_usize(SIGINT), Some(SIGINT));
    assert_eq!(signal_from_usize(SIGKILL), Some(SIGKILL));
    assert_eq!(signal_from_usize(NSIG), Some(NSIG));
    assert_eq!(signal_from_usize(NSIG + 1), None);
    assert_eq!(signal_from_usize(usize::MAX), None);
}

#[test]
fn error_codes_map_both_ways() {
    assert_eq!(error_from_code(1), Some(SysError::PermissionDenied));
    assert_eq!(error_from_code(3), Some(SysError::NoSuchProcess));
    assert_eq!(error_from_code(12), Some(SysError::OutOfMemory));
    assert_eq!(error_from_code(22), Some(SysError::InvalidArgument));
    assert_eq!(error_from_code(0), None);
    assert_eq!(error_from_code(2), None);
    assert_eq!(error_from_code(4095), None);
}

#[test]
fn sigset_union_difference_membership() {
    let mut m = Sigset::empty();
    assert_eq!(m.bits, 0);
    m.add_set(&Sigset { bits: 0b1010 });
    m.add_set(&Sigset { bits: 0b0110 });
    assert_eq!(m.bits, 0b1110);
    m.remove_set(&Sigset { bits: 0b0100 });
    assert_eq!(m.bits, 0b1010);
    assert!(m.contains(2));
    assert!(!m.contains(1));
    let term = Sigset { bits: 1 << (SIGTERM - 1) };
    assert!(term.contains(SIGTERM));
    assert!(!term.contains(SIGTERM - 1));
}
