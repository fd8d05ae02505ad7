//! Remote workspace provisioning: the workspace path derived from the
//! clock, the prefixes of that path, and the stat-then-create-if-absent
//! decisions that make remote directory creation idempotent.
use vstd::prelude::*;
use crate::errors::{ErrorKind, RunError};
use crate::timestamp::{lemma_timestamp_seq_injective, timestamp_seq, TimeParts};

verus! {

/// The fixed root under which every workspace lives.
pub open spec fn workspace_root_seq() -> Seq<char> {
    ".cserun/temp/"@
}

/// The workspace path for the instant `t`: the fixed root followed by the
/// millisecond-precision rendering of `t`.
pub open spec fn workspace_path_seq(t: TimeParts) -> Seq<char> {
    workspace_root_seq() + timestamp_seq(t)
}

/// Build the workspace path for the instant `t`.
pub fn workspace_path(t: &TimeParts) -> (s: String)
    ensures
        s@ == workspace_path_seq(*t),
{
    let mut s = String::from_str(".cserun/temp/");
    s.append(crate::timestamp::format_timestamp(t).as_str());
    s
}

/// Runs started in distinct instants — in particular in different
/// milliseconds — get different workspace paths, over the whole range the
/// clock can report.
pub proof fn lemma_distinct_instants_distinct_paths(a: TimeParts, b: TimeParts)
    requires
        a.wf(),
        b.wf(),
        a != b,
    ensures
        workspace_path_seq(a) != workspace_path_seq(b),
{
    if workspace_path_seq(a) == workspace_path_seq(b) {
        let r = workspace_root_seq().len() as int;
        assert(timestamp_seq(a) =~= workspace_path_seq(a).subrange(
            r,
            workspace_path_seq(a).len() as int,
        ));
        assert(timestamp_seq(b) =~= workspace_path_seq(b).subrange(
            r,
            workspace_path_seq(b).len() as int,
        ));
        lemma_timestamp_seq_injective(a, b);
    }
}

/// The audit file inside the workspace.
pub fn command_file_path(workspace: &str) -> (s: String)
    ensures
        s@ == workspace@ + "/command.txt"@,
{
    let mut s = String::from_str(workspace);
    s.append("/command.txt");
    s
}

/// The subtree of the workspace that receives the mirrored project.
pub fn container_path(workspace: &str) -> (s: String)
    ensures
        s@ == workspace@ + "/container"@,
{
    let mut s = String::from_str(workspace);
    s.append("/container");
    s
}

/// The prefixes of `s` that end just before a `'/'` lying before position
/// `n`, shortest first.
pub open spec fn prefix_list_upto(s: Seq<char>, n: int) -> Seq<Seq<char>>
    decreases n,
{
    if n <= 0 {
        Seq::empty()
    } else if s[n - 1] == '/' {
        prefix_list_upto(s, n - 1).push(s.subrange(0, n - 1))
    } else {
        prefix_list_upto(s, n - 1)
    }
}

/// Every ancestor prefix of the path `s` (one per `'/'`), followed by `s`
/// itself.
pub open spec fn prefix_list(s: Seq<char>) -> Seq<Seq<char>> {
    prefix_list_upto(s, s.len() as int).push(s)
}

/// List the prefixes of `path` that the provisioner visits root-downward:
/// one per path separator, and the whole path last.
pub fn path_prefixes(path: &str) -> (v: Vec<String>)
    ensures
        v.deep_view() == prefix_list(path@),
{
    let n = path.unicode_len();
    let mut v: Vec<String> = Vec::new();
    let mut i: usize = 0;
    while i < n
        invariant
            i <= n,
            n == path@.len(),
            v.deep_view() == prefix_list_upto(path@, i as int),
        decreases n - i,
    {
        let ghost pre = prefix_list_upto(path@, i as int);
        let ghost old_v = v;
        let c = path.get_char(i);
        if c == '/' {
            let p = path.substring_char(0, i);
            v.push(String::from_str(p));
            proof {
                lemma_deep_view_push(old_v, v, path@.subrange(0, i as int));
                assert(prefix_list_upto(path@, i + 1) == pre.push(path@.subrange(0, i as int)));
            }
        } else {
            proof {
                assert(prefix_list_upto(path@, i + 1) == pre);
            }
        }
        i = i + 1;
    }
    let ghost old_v = v;
    let whole = String::from_str(path);
    v.push(whole);
    proof {
        lemma_deep_view_push(old_v, v, path@);
        assert(path@.subrange(0, path@.len() as int) =~= path@);
    }
    v
}

/// Pushing a string whose view is `x` extends the deep view by `x`.
proof fn lemma_deep_view_push(old_v: Vec<String>, v: Vec<String>, x: Seq<char>)
    requires
        v@ == old_v@.push(v@[old_v@.len() as int]),
        v@[old_v@.len() as int]@ == x,
    ensures
        v.deep_view() == old_v.deep_view().push(x),
{
    let post = old_v.deep_view().push(x);
    assert forall|k: int| 0 <= k < post.len() implies v.deep_view()[k] == post[k] by {
        assert(v.deep_view()[k] == v@[k]@);
        if k < old_v@.len() {
            assert(v@[k] == old_v@[k]);
            assert(old_v.deep_view()[k] == old_v@[k]@);
        }
    }
    assert(v.deep_view() =~~= post);
}

/// What the remote reported for one prefix, with the outcome of the
/// creation attempt folded in where one was made. A failed creation is
/// re-probed: one that lost a race to an external creation of the same
/// directory is benign, as if the directory had been there all along.
#[derive(Clone, Copy, Debug, PartialEq, Eq, Structural)]
pub enum DirProbe {
    /// The prefix exists and is a directory.
    AlreadyDir,
    /// The prefix exists but is not a directory.
    NotADir,
    /// The prefix was absent and was created.
    AbsentCreated,
    /// The prefix was absent, creating it failed, and it now stats as a
    /// directory: something else created it concurrently, which counts as
    /// success.
    AbsentRacedToDir,
    /// The prefix was absent, creating it failed, and it still is not a
    /// directory.
    AbsentCreateFailed,
}

/// What the provisioner does with one stat report.
#[derive(Clone, Copy, Debug, PartialEq, Eq, Structural)]
pub enum MkdirStep {
    /// The prefix is already a directory: keep walking down.
    KeepGoing,
    /// The prefix is absent: create it with mode `0755`.
    Create,
    /// The prefix exists and is not a directory: the path collides.
    FailCollision,
}

/// What a stat of one prefix reported.
#[derive(Clone, Copy, Debug, PartialEq, Eq, Structural)]
pub enum StatOutcome {
    IsDir,
    NotDir,
    Absent,
}

/// Decide what to do with one prefix from what stat reported: an existing
/// directory is simply kept (this is what makes provisioning idempotent and
/// tolerant of concurrent external creation), an absent prefix is created,
/// and a non-directory collision fails the run.
pub fn mkdir_decision(o: &StatOutcome) -> (a: MkdirStep)
    ensures
        a == MkdirStep::KeepGoing <==> *o == StatOutcome::IsDir,
        a == MkdirStep::Create <==> *o == StatOutcome::Absent,
        a == MkdirStep::FailCollision <==> *o == StatOutcome::NotDir,
{
    match o {
        StatOutcome::IsDir => MkdirStep::KeepGoing,
        StatOutcome::Absent => MkdirStep::Create,
        StatOutcome::NotDir => MkdirStep::FailCollision,
    }
}

/// Decide what a failed creation means from a fresh stat of the same
/// prefix: a path that now is a directory lost a race to an external
/// creation and is kept — "already a directory" is success, never a
/// failure — while a path that still is not a directory is a real
/// provisioning failure.
pub fn mkdir_failure_check(restat: &StatOutcome) -> (r: Result<(), RunError>)
    ensures
        r is Ok <==> *restat == StatOutcome::IsDir,
        r matches Err(e) ==> e.kind == ErrorKind::Provision,
{
    match restat {
        StatOutcome::IsDir => Ok(()),
        StatOutcome::NotDir | StatOutcome::Absent => Err(
            RunError::new(
                ErrorKind::Provision,
                String::from_str("could not create a workspace directory"),
            ),
        ),
    }
}

/// Whether the probe of one prefix stops provisioning: only a collision
/// with a non-directory, or a creation that failed on a path that still is
/// not a directory. A creation lost to a concurrent external creation of
/// the directory never stops the pass.
pub open spec fn probe_stops(p: DirProbe) -> bool {
    p is NotADir || p is AbsentCreateFailed
}

/// The first probe that stops provisioning, or the number of probes if
/// none does.
pub open spec fn probe_stop_idx(ps: Seq<DirProbe>) -> int
    decreases ps.len(),
{
    if ps.len() == 0 {
        0
    } else if probe_stops(ps[0]) {
        0
    } else {
        1 + probe_stop_idx(ps.drop_first())
    }
}

/// The prefixes created by the first `n` probes.
pub open spec fn created_by(prefixes: Seq<Seq<char>>, ps: Seq<DirProbe>, n: int) -> Seq<Seq<char>>
    decreases n,
{
    if n <= 0 {
        Seq::empty()
    } else if ps[n - 1] is AbsentCreated {
        created_by(prefixes, ps, n - 1).push(prefixes[n - 1])
    } else {
        created_by(prefixes, ps, n - 1)
    }
}

/// The result of a provisioning pass.
pub struct ProvisionRun {
    /// The prefixes that were created, root-downward.
    pub created: Vec<String>,
    /// Success, or the provisioning error that stopped the pass.
    pub outcome: Result<(), RunError>,
}

/// Walk the prefixes root-downward against what the remote reported for
/// each: existing directories are kept, absent ones count as created, a
/// creation lost to a concurrent external creation of the directory is
/// kept like an existing one, and the pass stops at the first collision
/// with a non-directory or the first creation that failed on a path that
/// still is no directory, which is fatal.
pub fn provision_dirs(prefixes: &Vec<String>, probes: &Vec<DirProbe>) -> (r: ProvisionRun)
    requires
        probes@.len() == prefixes@.len(),
    ensures
        r.created.deep_view() == created_by(
            prefixes.deep_view(),
            probes@,
            if probe_stop_idx(probes@) < probes@.len() as int {
                probe_stop_idx(probes@)
            } else {
                probes@.len() as int
            },
        ),
        r.outcome is Ok <==> probe_stop_idx(probes@) == probes@.len() as int,
        r.outcome matches Err(e) ==> e.kind == ErrorKind::Provision,
{
    let ghost stop = probe_stop_idx(probes@);
    proof {
        lemma_probe_stop_bounds(probes@);
    }
    let mut created: Vec<String> = Vec::new();
    let mut i: usize = 0;
    while i < probes.len()
        invariant
            i <= probes@.len(),
            probes@.len() == prefixes@.len(),
            stop == probe_stop_idx(probes@),
            i <= stop,
            forall|j: int| 0 <= j < i ==> !probe_stops(probes@[j]),
            created.deep_view() =~= created_by(prefixes.deep_view(), probes@, i as int),
        decreases probes@.len() - i,
    {
        proof {
            lemma_probe_stop_bounds(probes@);
            lemma_probe_stop_prefix(probes@, i as int);
        }
        let p = probes[i];
        match p {
            DirProbe::AlreadyDir => {
            },
            DirProbe::AbsentRacedToDir => {
            },
            DirProbe::AbsentCreated => {
                created.push(prefixes[i].clone());
            },
            DirProbe::NotADir => {
                return ProvisionRun {
                    created,
                    outcome: Err(
                        RunError::new(
                            ErrorKind::Provision,
                            String::from_str("path collision: an ancestor exists and is not a directory"),
                        ),
                    ),
                };
            },
            DirProbe::AbsentCreateFailed => {
                return ProvisionRun {
                    created,
                    outcome: Err(
                        RunError::new(
                            ErrorKind::Provision,
                            String::from_str("could not create a workspace directory"),
                        ),
                    ),
                };
            },
        }
        proof {
            assert(created.deep_view() =~= created_by(prefixes.deep_view(), probes@, i + 1));
        }
        i = i + 1;
    }
    proof {
        if probes@.len() > 0 {
            lemma_probe_stop_prefix(probes@, probes@.len() - 1);
        }
    }
    ProvisionRun { created, outcome: Ok(()) }
}

/// The stop index never passes the end of the probes.
proof fn lemma_probe_stop_bounds(ps: Seq<DirProbe>)
    ensures
        0 <= probe_stop_idx(ps) <= ps.len(),
        probe_stop_idx(ps) < ps.len() ==> probe_stops(ps[probe_stop_idx(ps)]),
    decreases ps.len(),
{
    if ps.len() > 0 && !probe_stops(ps[0]) {
        lemma_probe_stop_bounds(ps.drop_first());
    }
}

/// If nothing up to `i` stops the pass, the stop index lies at or past `i`;
/// a stopping probe at `i` pins it there.
proof fn lemma_probe_stop_prefix(ps: Seq<DirProbe>, i: int)
    requires
        0 <= i < ps.len(),
        forall|j: int| 0 <= j < i ==> !probe_stops(ps[j]),
    ensures
        i <= probe_stop_idx(ps),
        probe_stops(ps[i]) ==> probe_stop_idx(ps) == i,
        !probe_stops(ps[i]) ==> i + 1 <= probe_stop_idx(ps),
    decreases i,
{
    if i == 0 {
        if !probe_stops(ps[0]) {
            lemma_probe_stop_bounds(ps.drop_first());
            assert(probe_stop_idx(ps) == 1 + probe_stop_idx(ps.drop_first()));
        }
    } else {
        assert(!probe_stops(ps[0]));
        assert forall|j: int| 0 <= j < i - 1 implies !probe_stops(
            #[trigger] ps.drop_first()[j],
        ) by {
            assert(ps.drop_first()[j] == ps[j + 1]);
        }
        lemma_probe_stop_prefix(ps.drop_first(), i - 1);
        assert(probe_stop_idx(ps) == 1 + probe_stop_idx(ps.drop_first()));
        assert(ps.drop_first()[i - 1] == ps[i]);
    }
}

/// Concurrent external creation never fails the pass: as long as every
/// prefix ends up a directory — found there, created here, or created by
/// someone else while this pass was trying — provisioning succeeds,
/// however the creation attempts themselves fared.
pub proof fn lemma_raced_creation_tolerated(probes: Seq<DirProbe>)
    requires
        forall|j: int|
            0 <= j < probes.len() ==> (probes[j] is AlreadyDir || probes[j] is AbsentCreated
                || probes[j] is AbsentRacedToDir),
    ensures
        probe_stop_idx(probes) == probes.len() as int,
    decreases probes.len(),
{
    if probes.len() > 0 {
        assert(!probe_stops(probes[0]));
        assert forall|j: int| 0 <= j < probes.drop_first().len() implies (
        #[trigger] probes.drop_first()[j] is AlreadyDir || probes.drop_first()[j] is AbsentCreated
            || probes.drop_first()[j] is AbsentRacedToDir) by {
            assert(probes.drop_first()[j] == probes[j + 1]);
        }
        lemma_raced_creation_tolerated(probes.drop_first());
    }
}

/// Applying the provisioning pass to a path whose prefixes all exist as
/// directories already — as a second run over the same path does — succeeds
/// and creates nothing.
pub proof fn lemma_provision_idempotent(prefixes: Seq<Seq<char>>, probes: Seq<DirProbe>)
    requires
        probes.len() == prefixes.len(),
        forall|j: int| 0 <= j < probes.len() ==> probes[j] is AlreadyDir,
    ensures
        probe_stop_idx(probes) == probes.len() as int,
        created_by(prefixes, probes, probes.len() as int) == Seq::<Seq<char>>::empty(),
    decreases probes.len(),
{
    if probes.len() > 0 {
        assert(forall|j: int|
            0 <= j < probes.drop_first().len() ==> probes.drop_first()[j] is AlreadyDir);
        lemma_provision_idempotent(prefixes.drop_first(), probes.drop_first());
        lemma_created_none(prefixes, probes, probes.len() as int);
    }
}

/// No probe before `n` that is not `AbsentCreated` creates anything.
proof fn lemma_created_none(prefixes: Seq<Seq<char>>, probes: Seq<DirProbe>, n: int)
    requires
        n <= probes.len(),
        forall|j: int| 0 <= j < n ==> !(probes[j] is AbsentCreated),
    ensures
        created_by(prefixes, probes, n) == Seq::<Seq<char>>::empty(),
    decreases n,
{
    if n > 0 {
        lemma_created_none(prefixes, probes, n - 1);
    }
}

} // verus!
