//! The error taxonomy of the run: every stage failure is one of five kinds,
//! and every error is fatal to the run except where the mirror tolerates a
//! directory-creation failure.
use vstd::prelude::*;

verus! {

/// Which stage of the run an error belongs to.
#[derive(Clone, Copy, Debug, PartialEq, Eq, Structural)]
pub enum ErrorKind {
    /// Connecting to the server or performing the handshake failed.
    Transport,
    /// The credential was rejected, or the agent held no identities.
    Auth,
    /// Creating the remote workspace or its audit file failed.
    Provision,
    /// Reading a local file or writing a remote file failed while mirroring.
    Transfer,
    /// A stream read failed (other than would-block), or no exit status
    /// could be obtained.
    Execution,
}

/// A fatal run error: a kind and a human-readable message.
#[derive(Debug)]
pub struct RunError {
    pub kind: ErrorKind,
    pub message: String,
}

impl RunError {
    /// Build an error of the given kind carrying the given message.
    pub fn new(kind: ErrorKind, message: String) -> (r: RunError)
        ensures
            r.kind == kind,
            r.message@ == message@,
    {
        RunError { kind, message }
    }

    /// The message, for rendering at the top level.
    pub fn render(&self) -> (r: &str)
        ensures
            r@ == self.message@,
    {
        self.message.as_str()
    }
}

} // verus!
