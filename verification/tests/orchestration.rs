use cserun::auth::{agent_identity_check, auth_plan, Auth, AuthKey, AuthStep, Config};
use cserun::errors::{ErrorKind, RunError};
use cserun::orchestrate::{advance, Stage};

#[test]
fn plan_picks_exactly_one_step_per_variant() {
    assert_eq!(auth_plan(&Auth::Password(String::from("secret"))), AuthStep::SubmitPassword);
    let key = AuthKey {
        pubkey: None,
        privekey: String::from("/home/user/.ssh/id_ed25519"),
        passphrase: None,
    };
    assert_eq!(auth_plan(&Auth::AuthKey(key)), AuthStep::SubmitKeyFile);
    assert_eq!(auth_plan(&Auth::Agent), AuthStep::QueryAgentIdentities);
}

#[test]
fn agent_with_zero_identities_fails_fast() {
    let r = agent_identity_check(0);
    match r {
        Err(e) => {
            assert_eq!(e.kind, ErrorKind::Auth);
            assert_eq!(e.message.as_str(), "No identities found in the ssh-agent");
        }
        Ok(()) => panic!("zero identities must not proceed to server-side auth"),
    }
}

#[test]
fn agent_with_identities_proceeds() {
    assert!(agent_identity_check(2).is_ok());
}

#[test]
fn rejected_password_fails_before_provisioning() {
    // connect ok, handshake ok, credential rejected
    let mut st = Stage::Connecting;
    st = advance(st, true);
    assert_eq!(st, Stage::Handshaking);
    st = advance(st, true);
    assert_eq!(st, Stage::Authenticating);
    st = advance(st, false);
    assert_eq!(st, Stage::Failed(ErrorKind::Auth));
    // the failure is terminal: no later event reaches provisioning
    st = advance(st, true);
    assert_eq!(st, Stage::Failed(ErrorKind::Auth));
    assert_ne!(st, Stage::Provisioning);
}

#[test]
fn successful_run_traverses_every_stage_once() {
    let mut st = Stage::Connecting;
    let expected = [
        Stage::Handshaking,
        Stage::Authenticating,
        Stage::Provisioning,
        Stage::Mirroring,
        Stage::Executing,
        Stage::Done,
    ];
    for want in expected {
        st = advance(st, true);
        assert_eq!(st, want);
    }
}

#[test]
fn run_error_carries_kind_and_message() {
    let e = RunError::new(ErrorKind::Transport, String::from("connection refused"));
    assert_eq!(e.kind, ErrorKind::Transport);
    assert_eq!(e.render(), "connection refused");
}

#[test]
fn config_holds_one_variant() {
    let conf = Config {
        server_addr: String::from("203.0.113.7:22"),
        username: String::from("user"),
        auth: Auth::Password(String::from("pw")),
        command: String::from("make test"),
    };
    assert!(matches!(conf.auth, Auth::Password(_)));
    assert_eq!(conf.command.as_str(), "make test");
}
