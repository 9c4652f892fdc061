use slsify::error::Error;
use slsify::ptrace::{check_call, PTrace, SIGCONT, SIGSTOP, WUNTRACED};

#[test]
fn signals_and_options_are_those_of_the_kernel() {
    assert_eq!(SIGSTOP, libc::SIGSTOP);
    assert_eq!(SIGCONT, libc::SIGCONT);
    assert_eq!(WUNTRACED, libc::WUNTRACED);
    let tracer = PTrace::new(1);
    assert_eq!(tracer.stop(), libc::SIGSTOP);
    assert_eq!(tracer.resume(), libc::SIGCONT);
}

#[test]
fn a_negative_result_is_a_failure_with_the_error_number() {
    assert_eq!(check_call(0, 3), Ok(()));
    assert_eq!(check_call(17, 3), Ok(()));
    assert_eq!(check_call(-1, libc::ESRCH), Err(Error::Os(libc::ESRCH)));
    assert_eq!(check_call(i64::MIN, libc::EPERM), Err(Error::Os(libc::EPERM)));
}

#[test]
fn a_new_tracer_is_not_attached() {
    let tracer = PTrace::new(4321);
    assert_eq!(tracer.pid, 4321);
    assert!(!tracer.attached);
    assert!(!tracer.detach_on_drop());
}

#[test]
fn attach_is_remembered_where_it_succeeded() {
    let mut tracer = PTrace::new(4321);
    assert_eq!(tracer.attach(-1, libc::EPERM), Err(Error::Os(libc::EPERM)));
    assert!(!tracer.attached);
    assert_eq!(tracer.attach(0, 0), Ok(()));
    assert!(tracer.attached);
    assert!(tracer.detach_on_drop());
    assert_eq!(tracer.attach(-1, libc::ESRCH), Err(Error::Os(libc::ESRCH)));
    assert!(tracer.attached);
    assert_eq!(tracer.pid, 4321);
}

#[test]
fn a_tracer_that_has_detached_still_tries_when_it_goes_away() {
    let mut tracer = PTrace::new(4321);
    assert_eq!(tracer.attach(0, 0), Ok(()));
    assert_eq!(tracer.detach(0, 0), Ok(()));
    assert!(tracer.detach_on_drop());
    let mut tracer = PTrace::new(4321);
    assert_eq!(tracer.detach(-1, libc::ESRCH), Err(Error::Os(libc::ESRCH)));
    assert!(!tracer.detach_on_drop());
}

#[test]
fn signal_fails_with_the_error_number() {
    let tracer = PTrace::new(4321);
    assert_eq!(tracer.signal(0, 0), Ok(()));
    assert_eq!(tracer.signal(-1, libc::ESRCH), Err(Error::Os(libc::ESRCH)));
}

#[test]
fn wait_has_to_report_the_target() {
    let tracer = PTrace::new(4321);
    assert_eq!(tracer.wait(4321, 0x137f, 0), Ok(0x137f));
    assert_eq!(tracer.wait(-1, 0, libc::ECHILD), Err(Error::Os(libc::ECHILD)));
    assert_eq!(tracer.wait(4322, 0x137f, 7), Err(Error::Os(7)));
}

#[test]
fn wait_pause_wants_a_stopped_target() {
    let tracer = PTrace::new(4321);
    // stopped by signal 19
    assert_eq!(tracer.wait_pause(4321, 0x137f, 0), Ok(()));
    assert_eq!(tracer.wait_pause_unattached(4321, 0x137f, 0), Ok(()));
    // exited with status 0
    assert_eq!(tracer.wait_pause(4321, 0, 11), Err(Error::Os(11)));
    // killed by signal 9
    assert_eq!(tracer.wait_pause_unattached(4321, 9, 11), Err(Error::Os(11)));
    // another process
    assert_eq!(tracer.wait_pause(1, 0x137f, 11), Err(Error::Os(11)));
    for status in [0x137f, 0, 9, 0x7f, 0xff7f, 0x100, 0x80] {
        assert_eq!(
            tracer.wait_pause(4321, status, 1).is_ok(),
            libc::WIFSTOPPED(status)
        );
    }
}
