use cserun::errors::ErrorKind;
use cserun::mirror::{mirror_entries, mirror_entry_action, rel_path, remote_join, MirrorAction,
    WalkEntry};

fn entry(path: &str, is_dir: bool) -> WalkEntry {
    WalkEntry { path: String::from(path), is_dir }
}

#[test]
fn relative_paths_strip_the_root() {
    assert_eq!(rel_path("./", "./a.txt").unwrap().as_str(), "a.txt");
    assert_eq!(rel_path("./", "./sub/b.txt").unwrap().as_str(), "sub/b.txt");
    assert_eq!(rel_path("./", "./").unwrap().as_str(), "");
    assert_eq!(rel_path("/r", "/r/x").unwrap().as_str(), "x");
    assert_eq!(rel_path("/r", "/r").unwrap().as_str(), "");
    assert!(rel_path("/r", "/q/x").is_none());
    assert!(rel_path("/r", "/rx").is_none());
}

#[test]
fn joining_relative_paths_below_the_destination() {
    assert_eq!(remote_join("ws/container", "a.txt").as_str(), "ws/container/a.txt");
    assert_eq!(remote_join("ws/container", "").as_str(), "ws/container");
}

#[test]
fn entries_map_to_their_mirror_action() {
    let a = mirror_entry_action("./", "ws/container", &entry("./sub", true));
    match a {
        MirrorAction::MakeDir(d) => assert_eq!(d.as_str(), "ws/container/sub"),
        _ => panic!("a directory entry must create a remote directory"),
    }
    let a = mirror_entry_action("./", "ws/container", &entry("./a.txt", false));
    match a {
        MirrorAction::Upload { local, remote } => {
            assert_eq!(local.as_str(), "./a.txt");
            assert_eq!(remote.as_str(), "ws/container/a.txt");
        }
        _ => panic!("a file entry must upload"),
    }
    let a = mirror_entry_action("/r", "ws/container", &entry("/elsewhere", false));
    assert!(matches!(a, MirrorAction::Skip));
}

#[test]
fn mirror_replicates_exactly_the_walked_tree() {
    // the walker yields the ignore-filtered entries: ignored.log is not
    // among them, and must not appear remotely
    let entries = vec![
        entry("./", true),
        entry("./a.txt", false),
        entry("./sub", true),
        entry("./sub/b.txt", false),
    ];
    let results = vec![true, true, true, true];
    let r = mirror_entries("./", "ws/container", &entries, &results);
    assert!(r.outcome.is_ok());
    let uploads: Vec<(&str, &str)> =
        r.uploaded.iter().map(|(l, rp)| (l.as_str(), rp.as_str())).collect();
    assert_eq!(
        uploads,
        vec![("./a.txt", "ws/container/a.txt"), ("./sub/b.txt", "ws/container/sub/b.txt")]
    );
    let dirs: Vec<&str> = r.dirs_made.iter().map(|s| s.as_str()).collect();
    assert_eq!(dirs, vec!["ws/container", "ws/container/sub"]);
    assert!(!uploads.iter().any(|(l, rp)| l.contains("ignored.log") || rp.contains("ignored.log")));
}

#[test]
fn preexisting_remote_directory_does_not_stop_the_mirror() {
    // the remote directory for sub/ already exists: its creation fails,
    // the mirror continues, and sub/b.txt is still written
    let entries = vec![
        entry("./", true),
        entry("./a.txt", false),
        entry("./sub", true),
        entry("./sub/b.txt", false),
    ];
    let results = vec![true, true, false, true];
    let r = mirror_entries("./", "ws/container", &entries, &results);
    assert!(r.outcome.is_ok());
    let uploads: Vec<&str> = r.uploaded.iter().map(|(_, rp)| rp.as_str()).collect();
    assert_eq!(uploads, vec!["ws/container/a.txt", "ws/container/sub/b.txt"]);
    let dirs: Vec<&str> = r.dirs_made.iter().map(|s| s.as_str()).collect();
    assert_eq!(dirs, vec!["ws/container"]);
}

#[test]
fn failed_file_transfer_aborts_with_a_transfer_error() {
    let entries = vec![entry("./", true), entry("./a.txt", false), entry("./b.txt", false)];
    let results = vec![true, false, true];
    let r = mirror_entries("./", "ws/container", &entries, &results);
    match r.outcome {
        Err(e) => assert_eq!(e.kind, ErrorKind::Transfer),
        Ok(()) => panic!("a failed file transfer must abort the mirror"),
    }
    // nothing after the failing file was written
    assert_eq!(r.uploaded.len(), 0);
}

#[test]
fn entries_outside_the_root_are_skipped() {
    let entries = vec![entry("/outside", false), entry("./a.txt", false)];
    let results = vec![true, true];
    let r = mirror_entries("./", "ws/container", &entries, &results);
    assert!(r.outcome.is_ok());
    let uploads: Vec<&str> = r.uploaded.iter().map(|(_, rp)| rp.as_str()).collect();
    assert_eq!(uploads, vec!["ws/container/a.txt"]);
}
