use testshell::control::COMMAND_WAIT_SECS;
use testshell::control::Controller;
use testshell::control::STARTUP_WAIT_SECS;
use testshell::control::SessionError;
use testshell::control::WaitOutcome;
use testshell::control::check_spawn;

#[test]
fn spawn_failure_is_fatal() {
    assert_eq!(check_spawn(true), Ok(()));
    assert_eq!(check_spawn(false), Err(SessionError::ProcessSpawnFailure));
}

#[test]
fn startup_without_a_prompt_times_out() {
    match Controller::new(false) {
        Err(SessionError::InitializationTimeout) => {}
        _ => panic!("startup without a prompt must time out"),
    }
}

#[test]
fn a_run_writes_the_command_line_and_returns_the_output() {
    let mut c = Controller::new(true).unwrap();
    let line = c.begin_run(b"echo hi").unwrap();
    assert_eq!(line.as_slice(), b"echo hi\n");
    let got = c.finish_run(WaitOutcome::Output(b"hi".to_vec())).unwrap();
    assert_eq!(got.as_slice(), b"hi");
    // The session stays open for the next command.
    assert!(c.begin_run(b"echo again").is_ok());
}

#[test]
fn a_timed_out_run_fails_and_shutdown_still_works() {
    let mut c = Controller::new(true).unwrap();
    c.begin_run(b"sleep forever").unwrap();
    assert_eq!(c.finish_run(WaitOutcome::TimedOut), Err(SessionError::CommandTimeout));
    // The session's state is indeterminate: further commands are refused...
    assert_eq!(c.begin_run(b"echo hi"), Err(SessionError::UnexpectedEof));
    // ...but shutdown is still available and returns the exit directive.
    let exit = c.begin_shutdown();
    assert_eq!(exit.as_slice(), b"exit\n");
}

#[test]
fn a_disconnected_run_fails_with_unexpected_eof() {
    let mut c = Controller::new(true).unwrap();
    c.begin_run(b"exit").unwrap();
    assert_eq!(c.finish_run(WaitOutcome::Disconnected), Err(SessionError::UnexpectedEof));
}

#[test]
fn runs_after_shutdown_fail_deterministically() {
    let mut c = Controller::new(true).unwrap();
    let exit = c.begin_shutdown();
    assert_eq!(exit.as_slice(), b"exit\n");
    assert_eq!(c.begin_run(b"echo hi"), Err(SessionError::UnexpectedEof));
    assert_eq!(c.begin_run(b"echo again"), Err(SessionError::UnexpectedEof));
}

#[test]
fn the_wait_bounds_are_fixed() {
    assert_eq!(STARTUP_WAIT_SECS, 5);
    assert_eq!(COMMAND_WAIT_SECS, 100);
}
