//! Session configuration and the credential resolver's decisions: exactly
//! one authentication variant is applied per run, and an agent that holds
//! no identities fails fast before any server-side attempt.
use vstd::prelude::*;
use crate::errors::{ErrorKind, RunError};

verus! {

/// Key-file authentication material: an optional public key path, the
/// required private key path, and an optional passphrase.
pub struct AuthKey {
    pub pubkey: Option<String>,
    pub privekey: String,
    pub passphrase: Option<String>,
}

/// The closed set of authentication variants; exactly one is active per
/// session and they are never combined.
pub enum Auth {
    Password(String),
    AuthKey(AuthKey),
    Agent,
}

/// One run's immutable session configuration.
pub struct Config {
    pub server_addr: String,
    pub username: String,
    pub auth: Auth,
    pub command: String,
}

/// The single transport primitive the resolver submits for a variant.
#[derive(Clone, Copy, Debug, PartialEq, Eq, Structural)]
pub enum AuthStep {
    /// Submit the username and the secret.
    SubmitPassword,
    /// Submit the username and the key-file material.
    SubmitKeyFile,
    /// Connect to the identity agent and enumerate its identities first.
    QueryAgentIdentities,
}

/// Pick the one step that the variant calls for: the variants are mutually
/// exclusive, and no retry crosses from one to another.
pub fn auth_plan(a: &Auth) -> (s: AuthStep)
    ensures
        s == AuthStep::SubmitPassword <==> a is Password,
        s == AuthStep::SubmitKeyFile <==> a is AuthKey,
        s == AuthStep::QueryAgentIdentities <==> a is Agent,
{
    match a {
        Auth::Password(_) => AuthStep::SubmitPassword,
        Auth::AuthKey(_) => AuthStep::SubmitKeyFile,
        Auth::Agent => AuthStep::QueryAgentIdentities,
    }
}

/// Decide from the agent's identity count whether agent authentication may
/// be attempted at all: zero identities fail fast with an authentication
/// error — the doomed server-side handshake is never attempted — and any
/// other count proceeds.
pub fn agent_identity_check(identities: usize) -> (r: Result<(), RunError>)
    ensures
        r is Ok <==> identities > 0,
        r matches Err(e) ==> e.kind == ErrorKind::Auth && e.message@
            == "No identities found in the ssh-agent"@,
{
    if identities == 0 {
        Err(
            RunError::new(
                ErrorKind::Auth,
                String::from_str("No identities found in the ssh-agent"),
            ),
        )
    } else {
        Ok(())
    }
}

} // verus!
