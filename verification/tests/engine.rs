use adb_sink::entry::{FileMode, SyncFile};
use adb_sink::fs::{FSCopyFrom, FileSystem, SyncError};
use adb_sink::plan::{compute_plan, is_verbose, Action, Reason, SyncOptions};
use adb_sink::sync::sink;
use adb_sink::tree::{build_tree, diff_trees, Node};
use std::collections::HashMap;

/// An in-memory backend: a map from directory path to its children, and
/// a record of every mutation the engine asks for.
struct MemFS {
    dirs: HashMap<String, Vec<SyncFile>>,
    copies: Vec<(String, String, Option<u32>)>,
    mkdirs: Vec<String>,
    removed_files: Vec<String>,
    removed_dirs: Vec<String>,
    fail_on: Option<String>,
}

impl MemFS {
    fn new() -> MemFS {
        MemFS {
            dirs: HashMap::new(),
            copies: Vec::new(),
            mkdirs: Vec::new(),
            removed_files: Vec::new(),
            removed_dirs: Vec::new(),
            fail_on: None,
        }
    }

    fn entry(parent: &str, name: &str, mode: FileMode, size: u32, ts: u32) -> SyncFile {
        SyncFile {
            mode,
            size,
            timestamp: ts,
            name: name.to_string(),
            path: format!("{}/{}", parent, name),
        }
    }

    fn add_dir(&mut self, parent: &str, name: &str) {
        let sf = Self::entry(parent, name, FileMode::Dir, 0, 0);
        let child = sf.path.clone();
        self.dirs.entry(parent.to_string()).or_default().push(sf);
        self.dirs.entry(child).or_default();
    }

    fn add_file(&mut self, parent: &str, name: &str, size: u32, ts: u32) {
        let sf = Self::entry(parent, name, FileMode::File, size, ts);
        self.dirs.entry(parent.to_string()).or_default().push(sf);
    }

    fn add_raw(&mut self, parent: &str, sf: SyncFile) {
        self.dirs.entry(parent.to_string()).or_default().push(sf);
    }

    fn drop_child(&mut self, path: &str) {
        let parent = match path.rfind('/') {
            Some(i) => &path[..i],
            None => "",
        };
        if let Some(v) = self.dirs.get_mut(parent) {
            v.retain(|sf| sf.path != path);
        }
    }
}

impl FileSystem for MemFS {
    fn mkdir(&mut self, path: &str) -> Result<(), SyncError> {
        self.mkdirs.push(path.to_string());
        self.dirs.entry(path.to_string()).or_default();
        Ok(())
    }

    fn list_dir(&mut self, path: &str) -> Result<Vec<SyncFile>, SyncError> {
        if self.fail_on.as_deref() == Some(path) {
            return Err(SyncError::Backend {
                action: "list_dir".to_string(),
                path: path.to_string(),
                message: "listing refused".to_string(),
            });
        }
        Ok(self
            .dirs
            .get(path)
            .map(|v| v.iter().map(|sf| sf.duplicate()).collect())
            .unwrap_or_default())
    }

    fn rm(&mut self, path: &str) -> Result<(), SyncError> {
        self.removed_files.push(path.to_string());
        self.drop_child(path);
        Ok(())
    }

    fn rm_dir(&mut self, path: &str) -> Result<(), SyncError> {
        self.removed_dirs.push(path.to_string());
        self.drop_child(path);
        self.dirs.remove(path);
        Ok(())
    }

    fn set_mtime(&mut self, _path: &str, _timestamp: u32) -> Result<(), SyncError> {
        Ok(())
    }
}

impl FSCopyFrom<MemFS> for MemFS {
    fn copy(&mut self, from: &str, to: &str, timestamp: Option<u32>) -> Result<(), SyncError> {
        self.copies.push((from.to_string(), to.to_string(), timestamp));
        Ok(())
    }
}

fn defaults() -> SyncOptions {
    SyncOptions {
        mirror_deletions: false,
        preserve_times: false,
        ignore_prefixes: Vec::new(),
        reject_trailing_dot: false,
        verbose: false,
    }
}

fn root_sf(name: &str, path: &str) -> SyncFile {
    SyncFile {
        mode: FileMode::Dir,
        size: 0,
        timestamp: 0,
        name: name.to_string(),
        path: path.to_string(),
    }
}

fn tree_of(fs: &mut MemFS, root: &str) -> Node {
    let name = root.rsplit('/').next().unwrap().to_string();
    build_tree(fs, root_sf(&name, root), root, &Vec::new()).unwrap()
}

#[test]
fn it_works() {
    let mut from = MemFS::new();
    let mut to = MemFS::new();
    let mut opts = defaults();
    opts.mirror_deletions = true;
    opts.verbose = true;
    assert!(is_verbose(&opts));
    sink(&mut from, &mut to, "test-from", "test-to", &opts).unwrap();
}

#[test]
fn scenario_new_file_on_empty_destination() {
    let mut src = MemFS::new();
    src.add_dir("/from", "a");
    src.add_file("/from/a", "b.txt", 10, 100);
    let mut dst = MemFS::new();
    dst.dirs.entry("/to".to_string()).or_default();

    let src_tree = tree_of(&mut src, "/from");
    let dst_tree = tree_of(&mut dst, "/to");
    let (actions, warns) = compute_plan(&dst_tree, &src_tree, &defaults());
    assert!(warns.is_empty());
    assert_eq!(actions.len(), 2);
    assert!(matches!(&actions[0], Action::CreateDirectory { rel } if rel == "a"));
    assert!(matches!(
        &actions[1],
        Action::CopyFile { rel, preserve_time: false, reason: Reason::NewOnDest, .. }
            if rel == "a/b.txt"
    ));
}

#[test]
fn scenario_source_newer() {
    let mut src = MemFS::new();
    src.add_dir("/from", "a");
    src.add_file("/from/a", "b.txt", 10, 200);
    let mut dst = MemFS::new();
    dst.add_dir("/to", "a");
    dst.add_file("/to/a", "b.txt", 10, 100);

    let src_tree = tree_of(&mut src, "/from");
    let dst_tree = tree_of(&mut dst, "/to");
    let (actions, _) = compute_plan(&dst_tree, &src_tree, &defaults());
    assert_eq!(actions.len(), 1);
    assert!(matches!(
        &actions[0],
        Action::CopyFile { rel, reason: Reason::SourceNewer, .. } if rel == "a/b.txt"
    ));
}

#[test]
fn scenario_unchanged_is_skipped() {
    let mut src = MemFS::new();
    src.add_dir("/from", "a");
    src.add_file("/from/a", "b.txt", 10, 100);
    let mut dst = MemFS::new();
    dst.add_dir("/to/from", "a");
    dst.add_file("/to/from/a", "b.txt", 10, 100);

    // run the whole pass: the only plan entry is a skip, and no mutation
    // of that file reaches the backend
    let report = sink(&mut src, &mut dst, "/from", "/to", &defaults()).unwrap();
    assert_eq!(report.actions.len(), 1);
    assert!(matches!(
        &report.actions[0],
        Action::Skip { rel, reason: Reason::Unchanged } if rel == "a/b.txt"
    ));
    assert!(dst.copies.is_empty());
    assert!(dst.removed_files.is_empty());
    assert!(dst.removed_dirs.is_empty());
}

#[test]
fn scenario_extraneous_deleted_depth_first() {
    let mut src = MemFS::new();
    src.dirs.entry("/from".to_string()).or_default();
    let mut dst = MemFS::new();
    dst.add_dir("/to", "old");
    dst.add_file("/to/old", "file.txt", 4, 9);

    let src_tree = tree_of(&mut src, "/from");
    let dst_tree = tree_of(&mut dst, "/to");
    let mut opts = defaults();
    opts.mirror_deletions = true;
    let (actions, _) = compute_plan(&dst_tree, &src_tree, &opts);
    assert_eq!(actions.len(), 2);
    assert!(matches!(&actions[0], Action::DeleteFile { rel } if rel == "old/file.txt"));
    assert!(matches!(&actions[1], Action::DeleteDirectory { rel } if rel == "old"));
}

#[test]
fn scenario_extraneous_directory_survives_when_something_below_stays() {
    let mut src = MemFS::new();
    src.dirs.entry("/from".to_string()).or_default();
    let mut dst = MemFS::new();
    dst.add_dir("/to", "old");
    dst.add_file("/to/old", "file.txt", 4, 9);
    dst.add_dir("/to/old", "keep");

    let src_tree = tree_of(&mut src, "/from");
    let dst_tree = tree_of(&mut dst, "/to");
    let mut opts = defaults();
    opts.mirror_deletions = true;
    opts.ignore_prefixes = vec!["old/keep".to_string()];
    let (actions, _) = compute_plan(&dst_tree, &src_tree, &opts);
    // the file goes, but the directory keeps an ignored survivor
    assert_eq!(actions.len(), 1);
    assert!(matches!(&actions[0], Action::DeleteFile { rel } if rel == "old/file.txt"));
}

#[test]
fn scenario_empty_directory_created() {
    let mut src = MemFS::new();
    src.add_dir("/from", "empty");
    let mut dst = MemFS::new();
    dst.dirs.entry("/to".to_string()).or_default();

    let src_tree = tree_of(&mut src, "/from");
    let dst_tree = tree_of(&mut dst, "/to");
    let (actions, _) = compute_plan(&dst_tree, &src_tree, &defaults());
    assert_eq!(actions.len(), 1);
    assert!(matches!(&actions[0], Action::CreateDirectory { rel } if rel == "empty"));
}

#[test]
fn identity_is_by_relative_path_alone() {
    let mut a = MemFS::new();
    a.add_dir("/a", "d");
    a.add_file("/a/d", "f", 1, 1);
    let mut b = MemFS::new();
    b.add_dir("/b", "d");
    b.add_file("/b/d", "f", 999, 999);

    let ta = tree_of(&mut a, "/a");
    let tb = tree_of(&mut b, "/b");
    let (only_in_b, only_in_a, pairs) = diff_trees(&ta, &tb);
    assert!(only_in_b.is_empty());
    assert!(only_in_a.is_empty());
    assert_eq!(pairs.len(), 1);
    assert_eq!(pairs[0].0.size, 1);
    assert_eq!(pairs[0].1.size, 999);
}

#[test]
fn second_run_over_a_mirror_is_all_skips() {
    let mut src = MemFS::new();
    src.add_dir("/from", "a");
    src.add_file("/from/a", "b.txt", 10, 100);
    src.add_file("/from", "top.txt", 3, 50);
    let mut dst = MemFS::new();
    dst.add_dir("/to", "a");
    dst.add_file("/to/a", "b.txt", 10, 100);
    dst.add_file("/to", "top.txt", 3, 77);

    let src_tree = tree_of(&mut src, "/from");
    let dst_tree = tree_of(&mut dst, "/to");
    let mut opts = defaults();
    opts.mirror_deletions = true;
    let (actions, warns) = compute_plan(&dst_tree, &src_tree, &opts);
    assert!(warns.is_empty());
    assert!(!actions.is_empty());
    for a in &actions {
        assert!(matches!(a, Action::Skip { .. }));
    }
}

#[test]
fn no_deletions_without_the_mirror_policy() {
    let mut src = MemFS::new();
    src.add_file("/from", "only-src.txt", 1, 1);
    let mut dst = MemFS::new();
    dst.add_dir("/to", "junk");
    dst.add_file("/to/junk", "x", 2, 2);
    dst.add_file("/to", "stale.bin", 3, 3);

    let src_tree = tree_of(&mut src, "/from");
    let dst_tree = tree_of(&mut dst, "/to");
    let (actions, _) = compute_plan(&dst_tree, &src_tree, &defaults());
    for a in &actions {
        assert!(!matches!(a, Action::DeleteFile { .. } | Action::DeleteDirectory { .. }));
    }
    // extraneous entries are still visible as skip markers
    assert!(actions.iter().any(|a| matches!(
        a,
        Action::Skip { rel, reason: Reason::RemovedFromSource } if rel == "junk"
    )));
}

#[test]
fn ignored_prefixes_contain_every_action() {
    let mut src = MemFS::new();
    src.add_dir("/from", "cache");
    src.add_file("/from/cache", "x.bin", 5, 5);
    src.add_dir("/from", "music");
    src.add_file("/from/music", "song", 7, 7);
    let mut dst = MemFS::new();
    dst.add_dir("/to", "cache");
    dst.add_file("/to/cache", "old.bin", 9, 9);

    let src_tree = tree_of(&mut src, "/from");
    let dst_tree = tree_of(&mut dst, "/to");
    let mut opts = defaults();
    opts.mirror_deletions = true;
    opts.ignore_prefixes = vec!["cache".to_string()];
    let (actions, _) = compute_plan(&dst_tree, &src_tree, &opts);
    for a in &actions {
        let rel = match a {
            Action::CreateDirectory { rel } => rel,
            Action::CopyFile { rel, .. } => rel,
            Action::DeleteFile { rel } => rel,
            Action::DeleteDirectory { rel } => rel,
            Action::Skip { rel, .. } => rel,
        };
        assert!(!rel.starts_with("cache"), "action touched {}", rel);
    }
    assert!(actions.iter().any(|a| matches!(
        a,
        Action::CopyFile { rel, .. } if rel == "music/song"
    )));
}

#[test]
fn unrepresentable_names_warn_and_are_skipped() {
    let mut src = MemFS::new();
    src.add_file("/from", "name.", 5, 5);
    src.add_file("/from", "fine", 5, 5);
    let mut dst = MemFS::new();
    dst.dirs.entry("/to".to_string()).or_default();

    let src_tree = tree_of(&mut src, "/from");
    let dst_tree = tree_of(&mut dst, "/to");
    let mut opts = defaults();
    opts.reject_trailing_dot = true;
    let (actions, warns) = compute_plan(&dst_tree, &src_tree, &opts);
    assert_eq!(warns, vec!["name.".to_string()]);
    assert_eq!(actions.len(), 1);
    assert!(matches!(&actions[0], Action::CopyFile { rel, .. } if rel == "fine"));
}

#[test]
fn every_source_file_is_copied_or_already_present() {
    let mut src = MemFS::new();
    src.add_file("/from", "present.txt", 4, 40);
    src.add_file("/from", "missing.txt", 6, 60);
    let mut dst = MemFS::new();
    dst.add_file("/to", "present.txt", 4, 40);

    let src_tree = tree_of(&mut src, "/from");
    let dst_tree = tree_of(&mut dst, "/to");
    let (actions, warns) = compute_plan(&dst_tree, &src_tree, &defaults());
    assert!(warns.is_empty());
    assert!(actions.iter().any(|a| matches!(
        a,
        Action::CopyFile { rel, reason: Reason::NewOnDest, .. } if rel == "missing.txt"
    )));
    assert!(actions.iter().any(|a| matches!(
        a,
        Action::Skip { rel, reason: Reason::Unchanged } if rel == "present.txt"
    )));
    assert!(!actions.iter().any(|a| matches!(
        a,
        Action::CopyFile { rel, .. } if rel == "present.txt"
    )));
}

#[test]
fn kind_mismatch_is_surfaced_as_stale() {
    let mut src = MemFS::new();
    src.add_dir("/from", "x");
    let mut dst = MemFS::new();
    dst.add_file("/to", "x", 0, 999);

    let src_tree = tree_of(&mut src, "/from");
    let dst_tree = tree_of(&mut dst, "/to");
    let (actions, _) = compute_plan(&dst_tree, &src_tree, &defaults());
    assert_eq!(actions.len(), 1);
    assert!(matches!(
        &actions[0],
        Action::CopyFile { rel, reason: Reason::SizeMismatch, .. } if rel == "x"
    ));
}

#[test]
fn sink_applies_creates_and_copies() {
    let mut src = MemFS::new();
    src.add_dir("/from", "a");
    src.add_file("/from/a", "b.txt", 10, 100);
    let mut dst = MemFS::new();
    dst.dirs.entry("/to".to_string()).or_default();

    let report = sink(&mut src, &mut dst, "/from", "/to", &defaults()).unwrap();
    assert_eq!(report.actions.len(), 2);
    assert!(dst.mkdirs.contains(&"/to/from".to_string()));
    assert!(dst.mkdirs.contains(&"/to/from/a".to_string()));
    assert_eq!(
        dst.copies,
        vec![("/from/a/b.txt".to_string(), "/to/from/a/b.txt".to_string(), None)]
    );
}

#[test]
fn sink_preserves_times_on_stale_pairs() {
    let mut src = MemFS::new();
    src.add_file("/from", "f", 10, 200);
    let mut dst = MemFS::new();
    dst.add_file("/to/from", "f", 10, 100);

    let mut opts = defaults();
    opts.preserve_times = true;
    sink(&mut src, &mut dst, "/from", "/to", &opts).unwrap();
    assert_eq!(
        dst.copies,
        vec![("/from/f".to_string(), "/to/from/f".to_string(), Some(200))]
    );
}

#[test]
fn sink_reverifies_before_directory_deletion() {
    let mut src = MemFS::new();
    src.dirs.entry("/from".to_string()).or_default();
    let mut dst = MemFS::new();
    dst.add_dir("/to/from", "old");
    dst.add_file("/to/from/old", "gone.txt", 1, 1);

    let mut opts = defaults();
    opts.mirror_deletions = true;
    let report = sink(&mut src, &mut dst, "/from", "/to", &opts).unwrap();
    assert_eq!(report.actions.len(), 2);
    // the file went first, so the fresh listing was empty and the
    // directory went too
    assert_eq!(dst.removed_files, vec!["/to/from/old/gone.txt".to_string()]);
    assert_eq!(dst.removed_dirs, vec!["/to/from/old".to_string()]);
}

#[test]
fn unnormalized_roots_fail_before_any_backend_call() {
    let mut src = MemFS::new();
    let mut dst = MemFS::new();
    assert!(matches!(
        sink(&mut src, &mut dst, "/from/", "/to", &defaults()),
        Err(SyncError::MalformedPath)
    ));
    assert!(matches!(
        sink(&mut src, &mut dst, "/from", "a//b", &defaults()),
        Err(SyncError::MalformedPath)
    ));
    assert!(dst.mkdirs.is_empty());
    assert!(dst.copies.is_empty());
}

#[test]
fn tree_roots_must_carry_the_prefix() {
    let mut src = MemFS::new();
    let r = build_tree(&mut src, root_sf("from", "/elsewhere"), "/from", &Vec::new());
    assert!(matches!(r, Err(SyncError::PrefixMismatch)));
}

#[test]
fn symlinks_are_fatal_during_tree_construction() {
    let mut src = MemFS::new();
    let sf = MemFS::entry("/from", "link", FileMode::Symlink, 0, 0);
    src.add_raw("/from", sf);
    let r = build_tree(&mut src, root_sf("from", "/from"), "/from", &Vec::new());
    assert!(matches!(r, Err(SyncError::SymlinkUnsupported)));
}

#[test]
fn inconsistent_listing_is_fatal() {
    let mut src = MemFS::new();
    // a child whose path does not sit under its parent
    let sf = SyncFile {
        mode: FileMode::File,
        size: 1,
        timestamp: 1,
        name: "f".to_string(),
        path: "/from/elsewhere/f".to_string(),
    };
    src.add_raw("/from", sf);
    let r = build_tree(&mut src, root_sf("from", "/from"), "/from", &Vec::new());
    assert!(matches!(r, Err(SyncError::InconsistentListing)));
}

#[test]
fn backend_failures_abort_the_run() {
    let mut src = MemFS::new();
    src.add_dir("/from", "a");
    src.fail_on = Some("/from/a".to_string());
    let r = build_tree(&mut src, root_sf("from", "/from"), "/from", &Vec::new());
    assert!(matches!(
        r,
        Err(SyncError::Backend { action, path, .. }) if action == "list_dir" && path == "/from/a"
    ));
}

#[test]
fn ignored_subtrees_are_not_even_listed() {
    let mut src = MemFS::new();
    src.add_dir("/from", "cache");
    src.fail_on = Some("/from/cache".to_string());
    let tree = build_tree(
        &mut src,
        root_sf("from", "/from"),
        "/from",
        &vec!["cache".to_string()],
    )
    .unwrap();
    assert!(tree.entries.is_empty());
}

#[test]
fn get_all_files_splits_files_and_empty_dirs() {
    let mut fs = MemFS::new();
    fs.add_dir("/r", "d1");
    fs.add_file("/r/d1", "f1", 1, 1);
    fs.add_dir("/r", "d2");
    let (files, empty_dirs) = fs.get_all_files("/r").unwrap();
    assert_eq!(files.len(), 1);
    assert_eq!(files[0].name, "f1");
    assert_eq!(empty_dirs.len(), 1);
    assert_eq!(empty_dirs[0].name, "d2");
}

#[test]
fn default_copy_dir_walks_the_tree() {
    let mut fs = MemFS::new();
    fs.add_dir("/src", "d");
    fs.add_file("/src/d", "f", 1, 1);
    fs.copy_dir("/src", "/dst").unwrap();
    assert!(fs.mkdirs.contains(&"/dst".to_string()));
    assert!(fs.mkdirs.contains(&"/dst/d".to_string()));
    assert_eq!(
        fs.copies,
        vec![("/src/d/f".to_string(), "/dst/d/f".to_string(), None)]
    );
}
