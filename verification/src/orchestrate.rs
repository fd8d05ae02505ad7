//! The run's control flow as a stage machine: authenticate, provision,
//! mirror, execute, each stage a hard dependency on the one before it,
//! every failure fatal and terminal. The machine is what shows that a
//! rejected credential stops the run before any remote workspace is
//! provisioned.
use vstd::prelude::*;
use crate::errors::ErrorKind;

verus! {

/// Where the run stands. The stages are traversed in order; `Failed` and
/// `Done` are terminal.
#[derive(Clone, Copy, Debug, PartialEq, Eq, Structural)]
pub enum Stage {
    /// Connecting to the server address.
    Connecting,
    /// Performing the transport handshake.
    Handshaking,
    /// Applying the one authentication variant.
    Authenticating,
    /// Creating the remote workspace and its audit file.
    Provisioning,
    /// Mirroring the local tree into the container.
    Mirroring,
    /// Running the command and draining its streams.
    Executing,
    /// The command finished and its exit status was reported.
    Done,
    /// A stage failed; the run is over, with this kind of error.
    Failed(ErrorKind),
}

/// The next stage after the current stage's work succeeded or failed:
/// success moves one stage forward, failure is fatal with that stage's
/// error kind, and the terminal stages absorb every event.
pub open spec fn spec_advance(st: Stage, ok: bool) -> Stage {
    match st {
        Stage::Connecting => if ok {
            Stage::Handshaking
        } else {
            Stage::Failed(ErrorKind::Transport)
        },
        Stage::Handshaking => if ok {
            Stage::Authenticating
        } else {
            Stage::Failed(ErrorKind::Transport)
        },
        Stage::Authenticating => if ok {
            Stage::Provisioning
        } else {
            Stage::Failed(ErrorKind::Auth)
        },
        Stage::Provisioning => if ok {
            Stage::Mirroring
        } else {
            Stage::Failed(ErrorKind::Provision)
        },
        Stage::Mirroring => if ok {
            Stage::Executing
        } else {
            Stage::Failed(ErrorKind::Transfer)
        },
        Stage::Executing => if ok {
            Stage::Done
        } else {
            Stage::Failed(ErrorKind::Execution)
        },
        Stage::Done => Stage::Done,
        Stage::Failed(k) => Stage::Failed(k),
    }
}

/// Advance the run by one stage outcome.
pub fn advance(st: Stage, ok: bool) -> (n: Stage)
    ensures
        n == spec_advance(st, ok),
{
    match st {
        Stage::Connecting => if ok {
            Stage::Handshaking
        } else {
            Stage::Failed(ErrorKind::Transport)
        },
        Stage::Handshaking => if ok {
            Stage::Authenticating
        } else {
            Stage::Failed(ErrorKind::Transport)
        },
        Stage::Authenticating => if ok {
            Stage::Provisioning
        } else {
            Stage::Failed(ErrorKind::Auth)
        },
        Stage::Provisioning => if ok {
            Stage::Mirroring
        } else {
            Stage::Failed(ErrorKind::Provision)
        },
        Stage::Mirroring => if ok {
            Stage::Executing
        } else {
            Stage::Failed(ErrorKind::Transfer)
        },
        Stage::Executing => if ok {
            Stage::Done
        } else {
            Stage::Failed(ErrorKind::Execution)
        },
        Stage::Done => Stage::Done,
        Stage::Failed(k) => Stage::Failed(k),
    }
}

/// The stage reached from `st` after the given stage outcomes.
pub open spec fn run_stages(st: Stage, evs: Seq<bool>) -> Stage
    decreases evs.len(),
{
    if evs.len() == 0 {
        st
    } else {
        run_stages(spec_advance(st, evs[0]), evs.drop_first())
    }
}

/// A failed run stays failed, whatever happens afterwards.
pub proof fn lemma_failed_is_terminal(k: ErrorKind, evs: Seq<bool>)
    ensures
        run_stages(Stage::Failed(k), evs) == Stage::Failed(k),
    decreases evs.len(),
{
    if evs.len() > 0 {
        lemma_failed_is_terminal(k, evs.drop_first());
    }
}

/// Running the machine over concatenated outcomes is running it over each
/// part in turn.
pub proof fn lemma_run_append(st: Stage, a: Seq<bool>, b: Seq<bool>)
    ensures
        run_stages(st, a + b) == run_stages(run_stages(st, a), b),
    decreases a.len(),
{
    if a.len() == 0 {
        assert(a + b =~= b);
    } else {
        assert((a + b).drop_first() =~= a.drop_first() + b);
        lemma_run_append(spec_advance(st, a[0]), a.drop_first(), b);
    }
}

/// How far along the run a stage lies; terminal stages lie past every
/// working stage.
pub open spec fn stage_rank(st: Stage) -> int {
    match st {
        Stage::Connecting => 0,
        Stage::Handshaking => 1,
        Stage::Authenticating => 2,
        Stage::Provisioning => 3,
        Stage::Mirroring => 4,
        Stage::Executing => 5,
        Stage::Done => 6,
        Stage::Failed(_) => 7,
    }
}

/// The run never moves backwards: stages are traversed in order, once
/// each.
pub proof fn lemma_rank_monotone(st: Stage, evs: Seq<bool>)
    ensures
        stage_rank(run_stages(st, evs)) >= stage_rank(st),
    decreases evs.len(),
{
    if evs.len() > 0 {
        lemma_rank_monotone(spec_advance(st, evs[0]), evs.drop_first());
    }
}

/// A rejected credential is fatal before provisioning: if the run has
/// reached authentication and the credential is refused, every later state
/// is the authentication failure, and at no point — before or after — is
/// the run ever in the provisioning stage. No workspace is created by a
/// run whose credential was rejected.
pub proof fn lemma_rejected_auth_never_provisions(pre: Seq<bool>, rest: Seq<bool>)
    requires
        run_stages(Stage::Connecting, pre) == Stage::Authenticating,
    ensures
        run_stages(Stage::Connecting, pre.push(false) + rest) == Stage::Failed(ErrorKind::Auth),
        forall|i: int|
            0 <= i <= (pre.push(false) + rest).len() ==> run_stages(
                Stage::Connecting,
                #[trigger] (pre.push(false) + rest).take(i),
            ) != Stage::Provisioning,
{
    let full = pre.push(false) + rest;
    assert(pre.push(false) =~= pre + seq![false]);
    lemma_run_append(Stage::Connecting, pre, seq![false]);
    assert(seq![false].drop_first() =~= Seq::<bool>::empty());
    assert(run_stages(Stage::Failed(ErrorKind::Auth), Seq::<bool>::empty()) == Stage::Failed(
        ErrorKind::Auth,
    ));
    assert(run_stages(Stage::Authenticating, seq![false]) == Stage::Failed(ErrorKind::Auth));
    assert(run_stages(Stage::Connecting, pre + seq![false]) == Stage::Failed(ErrorKind::Auth));
    lemma_run_append(Stage::Connecting, pre + seq![false], rest);
    lemma_failed_is_terminal(ErrorKind::Auth, rest);
    assert(pre + seq![false] + rest =~= pre.push(false) + rest);
    assert(run_stages(Stage::Connecting, full) == Stage::Failed(ErrorKind::Auth));
    assert forall|i: int| 0 <= i <= full.len() implies run_stages(
        Stage::Connecting,
        #[trigger] full.take(i),
    ) != Stage::Provisioning by {
        if i <= pre.len() {
            assert(full.take(i) =~= pre.take(i));
            if run_stages(Stage::Connecting, pre.take(i)) == Stage::Provisioning {
                assert(pre =~= pre.take(i) + pre.skip(i));
                lemma_run_append(Stage::Connecting, pre.take(i), pre.skip(i));
                lemma_rank_monotone(Stage::Provisioning, pre.skip(i));
            }
        } else {
            let j = i - pre.len() - 1;
            assert(full.take(i) =~= (pre + seq![false]) + rest.take(j));
            lemma_run_append(Stage::Connecting, pre + seq![false], rest.take(j));
            lemma_failed_is_terminal(ErrorKind::Auth, rest.take(j));
        }
    }
}

} // verus!
