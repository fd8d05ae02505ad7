//! Ignore-aware directory mirroring: relative-path computation, the action
//! taken for each walked entry, and the policy that tolerates directory
//! creation failures while aborting on any file-transfer failure.
use vstd::prelude::*;
use crate::errors::{ErrorKind, RunError};

verus! {

/// One entry yielded by the local, ignore-filtered walk: an absolute local
/// path and whether it is a directory.
pub struct WalkEntry {
    pub path: String,
    pub is_dir: bool,
}

/// Whether `root` names a directory with a trailing separator.
pub open spec fn root_slash(root: Seq<char>) -> bool {
    root.len() > 0 && root.last() == '/'
}

/// The path of `p` relative to `root`: empty for the root itself, the rest
/// after the separator for entries below it, and nothing for entries that
/// do not lie under `root` (those are silently skipped by the mirror).
pub open spec fn rel_of(root: Seq<char>, p: Seq<char>) -> Option<Seq<char>> {
    if p == root {
        Some(Seq::empty())
    } else if p.len() > root.len() && p.subrange(0, root.len() as int) == root {
        if root_slash(root) {
            Some(p.subrange(root.len() as int, p.len() as int))
        } else if p[root.len() as int] == '/' {
            Some(p.subrange(root.len() as int + 1, p.len() as int))
        } else {
            None
        }
    } else {
        None
    }
}

/// `rel` joined below `base`: `base` itself for the empty relative path.
pub open spec fn join_seq(base: Seq<char>, rel: Seq<char>) -> Seq<char> {
    if rel.len() == 0 {
        base
    } else {
        base + seq!['/'] + rel
    }
}

/// Whether `p` begins with `prefix`.
fn starts_with(p: &str, prefix: &str) -> (b: bool)
    ensures
        b == (p@.len() >= prefix@.len() && p@.subrange(0, prefix@.len() as int) == prefix@),
{
    let pl = p.unicode_len();
    let rl = prefix.unicode_len();
    if pl < rl {
        return false;
    }
    let mut i: usize = 0;
    while i < rl
        invariant
            i <= rl,
            rl == prefix@.len(),
            rl <= pl == p@.len(),
            forall|j: int| 0 <= j < i ==> p@[j] == prefix@[j],
        decreases rl - i,
    {
        if p.get_char(i) != prefix.get_char(i) {
            proof {
                assert(p@.subrange(0, rl as int)[i as int] != prefix@[i as int]);
            }
            return false;
        }
        i = i + 1;
    }
    proof {
        assert(p@.subrange(0, rl as int) =~= prefix@);
    }
    true
}

/// Compute the path of `p` relative to `root`, as the mirror does before
/// joining it onto the destination; entries outside `root` get `None`.
pub fn rel_path(root: &str, p: &str) -> (r: Option<String>)
    ensures
        r is Some <==> rel_of(root@, p@) is Some,
        r matches Some(s) ==> rel_of(root@, p@) == Some(s@),
{
    let pl = p.unicode_len();
    let rl = root.unicode_len();
    if !starts_with(p, root) {
        proof {
            if p@ == root@ {
                assert(p@.subrange(0, root@.len() as int) =~= root@);
            }
            assert(rel_of(root@, p@) is None);
        }
        return None;
    }
    if pl == rl {
        proof {
            assert(p@.subrange(0, rl as int) =~= p@);
            assert(p@ == root@);
        }
        return Some(String::new());
    }
    if rl > 0 && root.get_char(rl - 1) == '/' {
        proof {
            assert(root_slash(root@));
        }
        Some(String::from_str(p.substring_char(rl, pl)))
    } else {
        proof {
            assert(!root_slash(root@));
        }
        if p.get_char(rl) == '/' {
            Some(String::from_str(p.substring_char(rl + 1, pl)))
        } else {
            None
        }
    }
}

/// Join a relative path below the destination directory.
pub fn remote_join(base: &str, rel: &str) -> (s: String)
    ensures
        s@ == join_seq(base@, rel@),
{
    let mut s = String::from_str(base);
    if rel.unicode_len() == 0 {
        return s;
    }
    proof {
        reveal_strlit("/");
        assert("/"@ =~= seq!['/']);
    }
    s.append("/");
    s.append(rel);
    s
}

/// What the mirror does with one walked entry.
pub enum MirrorAction {
    /// The entry does not resolve to a path under the local root.
    Skip,
    /// Create this remote directory (failure is tolerated).
    MakeDir(String),
    /// Copy the local file's bytes to this remote path (failure is fatal).
    Upload { local: String, remote: String },
}

/// Decide what to do with one walked entry: directories are created at the
/// joined path, files are uploaded to it, and entries outside the root are
/// skipped.
pub fn mirror_entry_action(root: &str, dest: &str, e: &WalkEntry) -> (a: MirrorAction)
    ensures
        a is Skip <==> rel_of(root@, e.path@) is None,
        rel_of(root@, e.path@) matches Some(rel) ==> {
            &&& e.is_dir ==> (a matches MirrorAction::MakeDir(d) && d@ == join_seq(dest@, rel))
            &&& !e.is_dir ==> (a matches MirrorAction::Upload { local, remote } && local@
                == e.path@ && remote@ == join_seq(dest@, rel))
        },
{
    match rel_path(root, e.path.as_str()) {
        None => MirrorAction::Skip,
        Some(rel) => {
            let remote = remote_join(dest, rel.as_str());
            if e.is_dir {
                MirrorAction::MakeDir(remote)
            } else {
                MirrorAction::Upload { local: e.path.clone(), remote }
            }
        },
    }
}

/// A file entry under the root whose transfer failed: the one condition
/// that aborts the mirror.
pub open spec fn failing_upload(root: Seq<char>, e: WalkEntry, ok: bool) -> bool {
    !e.is_dir && rel_of(root, e.path@) is Some && !ok
}

/// The first entry whose transfer aborts the mirror, or the number of
/// entries if none does.
pub open spec fn mirror_stop_idx(root: Seq<char>, es: Seq<WalkEntry>, rs: Seq<bool>) -> int
    decreases es.len(),
{
    if es.len() == 0 {
        0
    } else if failing_upload(root, es[0], rs[0]) {
        0
    } else {
        1 + mirror_stop_idx(root, es.drop_first(), rs.drop_first())
    }
}

/// The `(local, remote)` pairs written by the first `n` entries.
pub open spec fn uploads_upto(
    root: Seq<char>,
    dest: Seq<char>,
    es: Seq<WalkEntry>,
    rs: Seq<bool>,
    n: int,
) -> Seq<(Seq<char>, Seq<char>)>
    decreases n,
{
    if n <= 0 {
        Seq::empty()
    } else {
        let prev = uploads_upto(root, dest, es, rs, n - 1);
        if !es[n - 1].is_dir && rel_of(root, es[n - 1].path@) is Some && rs[n - 1] {
            prev.push((es[n - 1].path@, join_seq(dest, rel_of(root, es[n - 1].path@).unwrap())))
        } else {
            prev
        }
    }
}

/// The remote directories created by the first `n` entries.
pub open spec fn dirs_upto(
    root: Seq<char>,
    dest: Seq<char>,
    es: Seq<WalkEntry>,
    rs: Seq<bool>,
    n: int,
) -> Seq<Seq<char>>
    decreases n,
{
    if n <= 0 {
        Seq::empty()
    } else {
        let prev = dirs_upto(root, dest, es, rs, n - 1);
        if es[n - 1].is_dir && rel_of(root, es[n - 1].path@) is Some && rs[n - 1] {
            prev.push(join_seq(dest, rel_of(root, es[n - 1].path@).unwrap()))
        } else {
            prev
        }
    }
}

/// The result of a mirroring pass.
pub struct MirrorRun {
    /// `(local, remote)` pairs whose bytes were copied, in walk order.
    pub uploaded: Vec<(String, String)>,
    /// Remote directories created, in walk order.
    pub dirs_made: Vec<String>,
    /// Success, or the transfer error that aborted the pass.
    pub outcome: Result<(), RunError>,
}

/// Pushing an element whose deep view is `x` extends the deep view by `x`.
proof fn lemma_deep_push<T: DeepView>(old_v: Vec<T>, v: Vec<T>, x: T::V)
    requires
        v@ == old_v@.push(v@[old_v@.len() as int]),
        v@[old_v@.len() as int].deep_view() == x,
    ensures
        v.deep_view() == old_v.deep_view().push(x),
{
    let post = old_v.deep_view().push(x);
    assert forall|k: int| 0 <= k < post.len() implies v.deep_view()[k] == post[k] by {
        assert(v.deep_view()[k] == v@[k].deep_view());
        if k < old_v@.len() {
            assert(v@[k] == old_v@[k]);
            assert(old_v.deep_view()[k] == old_v@[k].deep_view());
        }
    }
    assert(v.deep_view() =~~= post);
}

/// The stop index never passes the end of the entries.
proof fn lemma_mirror_stop_bounds(root: Seq<char>, es: Seq<WalkEntry>, rs: Seq<bool>)
    requires
        es.len() == rs.len(),
    ensures
        0 <= mirror_stop_idx(root, es, rs) <= es.len(),
        mirror_stop_idx(root, es, rs) < es.len() ==> failing_upload(
            root,
            es[mirror_stop_idx(root, es, rs)],
            rs[mirror_stop_idx(root, es, rs)],
        ),
    decreases es.len(),
{
    if es.len() > 0 && !failing_upload(root, es[0], rs[0]) {
        lemma_mirror_stop_bounds(root, es.drop_first(), rs.drop_first());
    }
}

/// If nothing up to `i` aborts the mirror, the stop index lies at or past
/// `i`; an aborting entry at `i` pins it there.
proof fn lemma_mirror_stop_prefix(root: Seq<char>, es: Seq<WalkEntry>, rs: Seq<bool>, i: int)
    requires
        es.len() == rs.len(),
        0 <= i < es.len(),
        forall|j: int| 0 <= j < i ==> !failing_upload(root, es[j], rs[j]),
    ensures
        i <= mirror_stop_idx(root, es, rs),
        failing_upload(root, es[i], rs[i]) ==> mirror_stop_idx(root, es, rs) == i,
        !failing_upload(root, es[i], rs[i]) ==> i + 1 <= mirror_stop_idx(root, es, rs),
    decreases i,
{
    if i == 0 {
        if !failing_upload(root, es[0], rs[0]) {
            lemma_mirror_stop_bounds(root, es.drop_first(), rs.drop_first());
            assert(mirror_stop_idx(root, es, rs) == 1 + mirror_stop_idx(
                root,
                es.drop_first(),
                rs.drop_first(),
            ));
        }
    } else {
        assert(!failing_upload(root, es[0], rs[0]));
        assert forall|j: int| 0 <= j < i - 1 implies !failing_upload(
            root,
            #[trigger] es.drop_first()[j],
            rs.drop_first()[j],
        ) by {
            assert(es.drop_first()[j] == es[j + 1]);
            assert(rs.drop_first()[j] == rs[j + 1]);
        }
        lemma_mirror_stop_prefix(root, es.drop_first(), rs.drop_first(), i - 1);
        assert(mirror_stop_idx(root, es, rs) == 1 + mirror_stop_idx(
            root,
            es.drop_first(),
            rs.drop_first(),
        ));
        assert(es.drop_first()[i - 1] == es[i]);
        assert(rs.drop_first()[i - 1] == rs[i]);
    }
}

/// Mirror the walked entries onto the destination, against the reported
/// outcome of each remote operation: exactly the file entries under the
/// root are uploaded at their joined paths, a failed directory creation is
/// tolerated and the walk continues, and the first failed file transfer
/// aborts the pass with a transfer error.
pub fn mirror_entries(
    root: &str,
    dest: &str,
    entries: &Vec<WalkEntry>,
    results: &Vec<bool>,
) -> (r: MirrorRun)
    requires
        results@.len() == entries@.len(),
    ensures
        ({
            let stop = mirror_stop_idx(root@, entries@, results@);
            let end = if stop < entries@.len() as int {
                stop
            } else {
                entries@.len() as int
            };
            &&& r.uploaded.deep_view() == uploads_upto(root@, dest@, entries@, results@, end)
            &&& r.dirs_made.deep_view() == dirs_upto(root@, dest@, entries@, results@, end)
            &&& r.outcome is Ok <==> stop == entries@.len() as int
            &&& r.outcome matches Err(e) ==> e.kind == ErrorKind::Transfer
        }),
{
    let ghost stop = mirror_stop_idx(root@, entries@, results@);
    proof {
        lemma_mirror_stop_bounds(root@, entries@, results@);
    }
    let mut uploaded: Vec<(String, String)> = Vec::new();
    let mut dirs_made: Vec<String> = Vec::new();
    let mut i: usize = 0;
    while i < entries.len()
        invariant
            i <= entries@.len(),
            results@.len() == entries@.len(),
            stop == mirror_stop_idx(root@, entries@, results@),
            i <= stop,
            forall|j: int| 0 <= j < i ==> !failing_upload(root@, entries@[j], results@[j]),
            uploaded.deep_view() == uploads_upto(root@, dest@, entries@, results@, i as int),
            dirs_made.deep_view() == dirs_upto(root@, dest@, entries@, results@, i as int),
        decreases entries@.len() - i,
    {
        proof {
            lemma_mirror_stop_prefix(root@, entries@, results@, i as int);
        }
        let ghost old_up = uploaded;
        let ghost old_dirs = dirs_made;
        let ok = results[i];
        let a = mirror_entry_action(root, dest, &entries[i]);
        match a {
            MirrorAction::Skip => {
            },
            MirrorAction::MakeDir(d) => {
                if ok {
                    dirs_made.push(d);
                    proof {
                        lemma_deep_push(old_dirs, dirs_made, dirs_made@[old_dirs@.len() as int]@);
                    }
                }
            },
            MirrorAction::Upload { local, remote } => {
                if ok {
                    uploaded.push((local, remote));
                    proof {
                        lemma_deep_push(
                            old_up,
                            uploaded,
                            uploaded@[old_up@.len() as int].deep_view(),
                        );
                    }
                } else {
                    proof {
                        assert(failing_upload(root@, entries@[i as int], results@[i as int]));
                        assert(stop == i as int);
                    }
                    return MirrorRun {
                        uploaded,
                        dirs_made,
                        outcome: Err(
                            RunError::new(
                                ErrorKind::Transfer,
                                String::from_str("a file transfer failed; the mirror was aborted"),
                            ),
                        ),
                    };
                }
            },
        }
        proof {
            assert(uploaded.deep_view() =~~= uploads_upto(
                root@,
                dest@,
                entries@,
                results@,
                i + 1,
            ));
            assert(dirs_made.deep_view() =~~= dirs_upto(root@, dest@, entries@, results@, i + 1));
        }
        i = i + 1;
    }
    proof {
        if entries@.len() > 0 {
            lemma_mirror_stop_prefix(root@, entries@, results@, entries@.len() - 1);
        }
    }
    MirrorRun { uploaded, dirs_made, outcome: Ok(()) }
}

/// Directory-creation failures never abort the mirror: as long as every
/// file entry under the root transfers, the pass completes, whatever
/// happened to the directory creations.
pub proof fn lemma_mirror_tolerates_dir_failures(
    root: Seq<char>,
    es: Seq<WalkEntry>,
    rs: Seq<bool>,
)
    requires
        es.len() == rs.len(),
        forall|j: int|
            0 <= j < es.len() && !es[j].is_dir && rel_of(root, es[j].path@) is Some ==> rs[j],
    ensures
        mirror_stop_idx(root, es, rs) == es.len() as int,
    decreases es.len(),
{
    if es.len() > 0 {
        assert(!failing_upload(root, es[0], rs[0]));
        assert forall|j: int|
            0 <= j < es.drop_first().len() && !es.drop_first()[j].is_dir && rel_of(
                root,
                es.drop_first()[j].path@,
            ) is Some implies rs.drop_first()[j] by {
            assert(es.drop_first()[j] == es[j + 1]);
            assert(rs.drop_first()[j] == rs[j + 1]);
        }
        lemma_mirror_tolerates_dir_failures(root, es.drop_first(), rs.drop_first());
    }
}

} // verus!
