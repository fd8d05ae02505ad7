use cserun::errors::ErrorKind;
use cserun::execute::{
    classify_read, compose_invocation, drain_events, exit_report_line, i32_to_dec, DrainOutcome,
    PollEvent, ReadDirective, ReadOutcome,
};

fn bytes(s: &str) -> Vec<u8> {
    s.as_bytes().to_vec()
}

#[test]
fn invocation_composes_cd_with_the_command() {
    assert_eq!(
        compose_invocation(".cserun/temp/x", "cargo test").as_str(),
        "cd .cserun/temp/x/container && cargo test"
    );
}

#[test]
fn read_outcomes_classify_exactly() {
    assert_eq!(classify_read(&ReadOutcome::Data(bytes("x"))), ReadDirective::ForwardBytes);
    assert_eq!(classify_read(&ReadOutcome::Data(Vec::new())), ReadDirective::NoData);
    assert_eq!(classify_read(&ReadOutcome::WouldBlock), ReadDirective::NoData);
    assert_eq!(
        classify_read(&ReadOutcome::Failed(String::from("broken pipe"))),
        ReadDirective::Abort
    );
}

#[test]
fn both_streams_reach_their_sinks_and_the_status_is_reported() {
    // a command writing "out" to standard output, "err" to standard error,
    // exiting with code 7
    let events = vec![
        PollEvent::Streams { stdout: ReadOutcome::Data(bytes("out")), stderr: ReadOutcome::WouldBlock },
        PollEvent::Streams { stdout: ReadOutcome::WouldBlock, stderr: ReadOutcome::Data(bytes("err")) },
        PollEvent::ChannelEof,
    ];
    let r = drain_events(&events);
    assert_eq!(r.out, bytes("out"));
    assert_eq!(r.err, bytes("err"));
    assert!(matches!(r.outcome, DrainOutcome::Finished));
    assert_eq!(exit_report_line(7).as_str(), "\nExit status: 7");
}

#[test]
fn silent_stdout_does_not_starve_stderr() {
    // standard error writes in bursts with pauses; standard output stays
    // permanently empty
    let events = vec![
        PollEvent::Streams { stdout: ReadOutcome::WouldBlock, stderr: ReadOutcome::Data(bytes("e1")) },
        PollEvent::Streams { stdout: ReadOutcome::WouldBlock, stderr: ReadOutcome::WouldBlock },
        PollEvent::Streams { stdout: ReadOutcome::Data(Vec::new()), stderr: ReadOutcome::Data(bytes("e2")) },
        PollEvent::Streams { stdout: ReadOutcome::WouldBlock, stderr: ReadOutcome::Data(bytes("e3")) },
        PollEvent::ChannelEof,
    ];
    let r = drain_events(&events);
    assert_eq!(r.out, Vec::<u8>::new());
    assert_eq!(r.err, bytes("e1e2e3"));
    assert!(matches!(r.outcome, DrainOutcome::Finished));
}

#[test]
fn channel_eof_ends_the_loop_even_with_data_pending_later() {
    let events = vec![
        PollEvent::Streams { stdout: ReadOutcome::Data(bytes("a")), stderr: ReadOutcome::WouldBlock },
        PollEvent::ChannelEof,
        PollEvent::Streams { stdout: ReadOutcome::Data(bytes("never")), stderr: ReadOutcome::WouldBlock },
    ];
    let r = drain_events(&events);
    assert_eq!(r.out, bytes("a"));
    assert!(matches!(r.outcome, DrainOutcome::Finished));
}

#[test]
fn read_failure_aborts_with_an_execution_error() {
    let events = vec![
        PollEvent::Streams { stdout: ReadOutcome::Data(bytes("partial")), stderr: ReadOutcome::WouldBlock },
        PollEvent::Streams {
            stdout: ReadOutcome::Failed(String::from("connection reset")),
            stderr: ReadOutcome::WouldBlock,
        },
    ];
    let r = drain_events(&events);
    assert_eq!(r.out, bytes("partial"));
    match r.outcome {
        DrainOutcome::Aborted(e) => assert_eq!(e.kind, ErrorKind::Execution),
        _ => panic!("a real read failure must abort the loop"),
    }
}

#[test]
fn stderr_failure_aborts_after_forwarding_stdout() {
    let events = vec![PollEvent::Streams {
        stdout: ReadOutcome::Data(bytes("kept")),
        stderr: ReadOutcome::Failed(String::from("reset")),
    }];
    let r = drain_events(&events);
    assert_eq!(r.out, bytes("kept"));
    assert!(matches!(r.outcome, DrainOutcome::Aborted(_)));
}

#[test]
fn exhausted_events_leave_the_loop_incomplete() {
    let events = vec![PollEvent::Streams {
        stdout: ReadOutcome::WouldBlock,
        stderr: ReadOutcome::WouldBlock,
    }];
    let r = drain_events(&events);
    assert!(matches!(r.outcome, DrainOutcome::Exhausted));
}

#[test]
fn failed_cd_surfaces_as_the_shell_status_not_an_error() {
    // the composed `cd ... && cmd` fails its cd: the shell writes its
    // message to standard error, the channel closes, and the shell's own
    // non-zero status is reported — the run sees no execution error
    let events = vec![
        PollEvent::Streams {
            stdout: ReadOutcome::WouldBlock,
            stderr: ReadOutcome::Data(bytes("sh: cd: no such directory")),
        },
        PollEvent::ChannelEof,
    ];
    let r = drain_events(&events);
    assert!(matches!(r.outcome, DrainOutcome::Finished));
    assert_eq!(r.err, bytes("sh: cd: no such directory"));
    assert_eq!(exit_report_line(127).as_str(), "\nExit status: 127");
}

#[test]
fn signed_statuses_render_exactly() {
    assert_eq!(i32_to_dec(0).as_str(), "0");
    assert_eq!(i32_to_dec(255).as_str(), "255");
    assert_eq!(i32_to_dec(-5).as_str(), "-5");
}
