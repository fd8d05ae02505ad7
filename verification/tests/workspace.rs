use cserun::decimal::{u32_to_dec, zero_pad};
use cserun::errors::ErrorKind;
use cserun::provision::{
    command_file_path, container_path, mkdir_decision, mkdir_failure_check, path_prefixes,
    provision_dirs, workspace_path, DirProbe, MkdirStep, StatOutcome,
};
use cserun::timestamp::{current_timestamp, format_timestamp, TimeParts};

fn sample_instant() -> TimeParts {
    TimeParts { year: 2024, month: 2, day: 14, hour: 1, minute: 10, second: 40, millis: 224 }
}

#[test]
fn decimal_rendering_is_exact() {
    assert_eq!(u32_to_dec(0).as_str(), "0");
    assert_eq!(u32_to_dec(1234).as_str(), "1234");
    assert_eq!(zero_pad(7, 3).as_str(), "007");
    assert_eq!(zero_pad(0, 2).as_str(), "00");
    assert_eq!(zero_pad(1234, 2).as_str(), "1234");
}

#[test]
fn timestamp_formats_to_millisecond_precision() {
    assert_eq!(format_timestamp(&sample_instant()).as_str(), "2024-02-14-01-10-40-224");
}

#[test]
fn workspace_path_lies_under_the_fixed_root() {
    assert_eq!(
        workspace_path(&sample_instant()).as_str(),
        ".cserun/temp/2024-02-14-01-10-40-224"
    );
}

#[test]
fn different_milliseconds_give_different_workspaces() {
    let a = sample_instant();
    let mut b = sample_instant();
    b.millis = 225;
    assert_ne!(workspace_path(&a).as_str(), workspace_path(&b).as_str());
}

#[test]
fn leap_second_milliseconds_still_distinguish_workspaces() {
    // during a leap second the clock reports milliseconds above 999; the
    // field widens and the names stay distinct
    let mut a = sample_instant();
    a.second = 59;
    a.millis = 1000;
    let mut b = a;
    b.millis = 1001;
    assert_eq!(format_timestamp(&a).as_str(), "2024-02-14-01-10-59-1000");
    assert_ne!(workspace_path(&a).as_str(), workspace_path(&b).as_str());
}

#[test]
fn wide_and_signed_years_render_with_their_digits() {
    let mut t = sample_instant();
    t.year = -44;
    assert_eq!(format_timestamp(&t).as_str(), "-0044-02-14-01-10-40-224");
    t.year = 123456;
    assert_eq!(format_timestamp(&t).as_str(), "123456-02-14-01-10-40-224");
}

#[test]
fn clock_reading_renders_as_a_workspace_name() {
    let t = current_timestamp();
    let p = workspace_path(&t);
    assert!(p.as_str().starts_with(".cserun/temp/"));
    // the rendered instant, not a constant: the name carries the
    // dash-separated calendar fields
    assert!(p.as_str().matches('-').count() >= 6);
}

#[test]
fn audit_and_container_paths_join_the_workspace() {
    assert_eq!(command_file_path("ws").as_str(), "ws/command.txt");
    assert_eq!(container_path("ws").as_str(), "ws/container");
}

#[test]
fn prefixes_walk_the_path_root_downward() {
    let v = path_prefixes(".cserun/temp/2024-02-14-01-10-40-224");
    let got: Vec<&str> = v.iter().map(|s| s.as_str()).collect();
    assert_eq!(got, vec![".cserun", ".cserun/temp", ".cserun/temp/2024-02-14-01-10-40-224"]);
}

#[test]
fn stat_outcomes_decide_the_step() {
    assert_eq!(mkdir_decision(&StatOutcome::IsDir), MkdirStep::KeepGoing);
    assert_eq!(mkdir_decision(&StatOutcome::Absent), MkdirStep::Create);
    assert_eq!(mkdir_decision(&StatOutcome::NotDir), MkdirStep::FailCollision);
}

#[test]
fn provisioning_creates_the_absent_prefixes() {
    let prefixes = path_prefixes("a/b/c");
    let probes = vec![DirProbe::AlreadyDir, DirProbe::AbsentCreated, DirProbe::AbsentCreated];
    let r = provision_dirs(&prefixes, &probes);
    assert!(r.outcome.is_ok());
    let created: Vec<&str> = r.created.iter().map(|s| s.as_str()).collect();
    assert_eq!(created, vec!["a/b", "a/b/c"]);
}

#[test]
fn provisioning_twice_is_idempotent() {
    // the second run sees every prefix as an existing directory
    let prefixes = path_prefixes("a/b/c");
    let probes = vec![DirProbe::AlreadyDir, DirProbe::AlreadyDir, DirProbe::AlreadyDir];
    let r = provision_dirs(&prefixes, &probes);
    assert!(r.outcome.is_ok());
    assert_eq!(r.created.len(), 0);
}

#[test]
fn creation_lost_to_an_external_race_is_success() {
    // a/b was absent at stat time, the creation failed because something
    // else created the directory first: the pass continues and succeeds
    let prefixes = path_prefixes("a/b/c");
    let probes = vec![DirProbe::AlreadyDir, DirProbe::AbsentRacedToDir, DirProbe::AbsentCreated];
    let r = provision_dirs(&prefixes, &probes);
    assert!(r.outcome.is_ok());
    // only the prefix this pass created is recorded
    let created: Vec<&str> = r.created.iter().map(|s| s.as_str()).collect();
    assert_eq!(created, vec!["a/b/c"]);
}

#[test]
fn failed_creation_reprobes_the_prefix() {
    // the re-probe decides what a failed creation means: a directory now
    // there is success, anything else is a provision error
    assert!(mkdir_failure_check(&StatOutcome::IsDir).is_ok());
    match mkdir_failure_check(&StatOutcome::NotDir) {
        Err(e) => assert_eq!(e.kind, ErrorKind::Provision),
        Ok(()) => panic!("a non-directory after a failed creation must fail"),
    }
    match mkdir_failure_check(&StatOutcome::Absent) {
        Err(e) => assert_eq!(e.kind, ErrorKind::Provision),
        Ok(()) => panic!("a still-absent prefix after a failed creation must fail"),
    }
}

#[test]
fn collision_with_a_file_is_a_provision_error() {
    let prefixes = path_prefixes("a/b");
    let probes = vec![DirProbe::AlreadyDir, DirProbe::NotADir];
    let r = provision_dirs(&prefixes, &probes);
    match r.outcome {
        Err(e) => assert_eq!(e.kind, ErrorKind::Provision),
        Ok(()) => panic!("a non-directory collision must fail provisioning"),
    }
}

#[test]
fn failed_creation_is_a_provision_error() {
    let prefixes = path_prefixes("a");
    let probes = vec![DirProbe::AbsentCreateFailed];
    let r = provision_dirs(&prefixes, &probes);
    match r.outcome {
        Err(e) => assert_eq!(e.kind, ErrorKind::Provision),
        Ok(()) => panic!("a failed creation must fail provisioning"),
    }
}
