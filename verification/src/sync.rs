//! One synchronization pass end to end: snapshot both sides, derive the
//! plan, apply it through the backends, and return what was decided.

use crate::entry::{FileMode, SyncFile};
use crate::fs::{FSCopyFrom, FileSystem, SyncError};
use crate::laws::{lemma_deletion_safety, lemma_ignore_containment, no_deletions, no_ignored_rel};
use crate::path::{check_clean_path, clean_path, path_file_name, unix_join};
use crate::plan::{acts_view, compute_plan, plan_spec, strs_view, warns_spec, Action, SyncOptions};
use crate::tree::{build_tree, NodeV};
use vstd::prelude::*;

verus! {

/// Everything one pass decided: the derived action plan, in the order it
/// was applied, and the warnings for names the destination cannot hold.
pub struct SyncReport {
    pub actions: Vec<Action>,
    pub warnings: Vec<String>,
}

/// Apply a derived plan through the destination backend. A directory
/// deletion is re-verified first: the directory is removed only when a
/// fresh listing confirms it is empty, a defensive double-check against
/// stale snapshot data.
fn apply_actions<SRC: FileSystem, DEST: FileSystem + FSCopyFrom<SRC>>(
    dest_fs: &mut DEST,
    actions: &Vec<Action>,
    src_root: &str,
    dst_root: &str,
) -> (r: Result<(), SyncError>)
{
    let mut i: usize = 0;
    while i < actions.len()
        decreases actions@.len() - i,
    {
        match &actions[i] {
            Action::CreateDirectory { rel } => {
                let to = unix_join(dst_root, rel.as_str());
                dest_fs.mkdir(to.as_str())?;
            },
            Action::CopyFile { rel, preserve_time, mtime, .. } => {
                let from = unix_join(src_root, rel.as_str());
                let to = unix_join(dst_root, rel.as_str());
                let ts: Option<u32> = if *preserve_time {
                    Some(*mtime)
                } else {
                    None
                };
                dest_fs.copy(from.as_str(), to.as_str(), ts)?;
            },
            Action::DeleteFile { rel } => {
                let p = unix_join(dst_root, rel.as_str());
                dest_fs.rm(p.as_str())?;
            },
            Action::DeleteDirectory { rel } => {
                let p = unix_join(dst_root, rel.as_str());
                let listing = dest_fs.list_dir(p.as_str())?;
                if listing.len() == 0 {
                    dest_fs.rm_dir(p.as_str())?;
                }
            },
            Action::Skip { .. } => {
            },
        }
        i = i + 1;
    }
    Ok(())
}

/// Mirror the hierarchy at `src_path` on the source backend into
/// `dst_path` on the destination backend, under the given policy.
///
/// The destination root becomes `dst_path` extended by the final
/// component of `src_path`, created up front. Both sides are snapshotted
/// with one listing per directory, diffed by relative path, and the
/// derived plan is applied: creates and copies first, deletions last.
/// A root path that is not slash-normalized fails before anything else.
/// The returned report is the derived plan of some pair of well-formed
/// snapshots under this policy — so it carries the plan's whole shape:
/// without the mirror-deletions policy it holds no deletion, no action
/// of it touches an ignored relative path, and its warnings arise only
/// under the trailing-dot policy.
pub fn sink<SRC: FileSystem, DEST: FileSystem + FSCopyFrom<SRC>>(
    src_fs: &mut SRC,
    dest_fs: &mut DEST,
    src_path: &str,
    dst_path: &str,
    opts: &SyncOptions,
) -> (r: Result<SyncReport, SyncError>)
    ensures
        match r {
            Ok(rep) => {
                &&& !opts@.mirror_deletions ==> no_deletions(acts_view(rep.actions@))
                &&& no_ignored_rel(acts_view(rep.actions@), opts@)
                &&& exists|dv: NodeV, sv: NodeV|
                    {
                        &&& dv.wf()
                        &&& sv.wf()
                        &&& acts_view(rep.actions@) == #[trigger] plan_spec(dv, sv, opts@)
                        &&& strs_view(rep.warnings@) == warns_spec(dv, sv, opts@)
                    }
            },
            Err(e) => !(clean_path(src_path@) && clean_path(dst_path@)) ==> e is MalformedPath,
        },
        !(clean_path(src_path@) && clean_path(dst_path@)) ==> r is Err,
{
    if !check_clean_path(src_path) || !check_clean_path(dst_path) {
        return Err(SyncError::MalformedPath);
    }
    let source_file_name = path_file_name(src_path);
    let dest_file_name = path_file_name(dst_path);
    let dst_root = unix_join(dst_path, source_file_name.as_str());
    dest_fs.mkdir(dst_root.as_str())?;
    let src_root = build_tree(
        src_fs,
        SyncFile {
            mode: FileMode::Dir,
            size: 0,
            timestamp: 0,
            name: source_file_name,
            path: src_path.to_owned(),
        },
        src_path,
        &opts.ignore_prefixes,
    )?;
    let dest_root = build_tree(
        dest_fs,
        SyncFile {
            mode: FileMode::Dir,
            size: 0,
            timestamp: 0,
            name: dest_file_name,
            path: dst_root.clone(),
        },
        dst_root.as_str(),
        &opts.ignore_prefixes,
    )?;
    let (actions, warnings) = compute_plan(&dest_root, &src_root, opts);
    proof {
        if !opts@.mirror_deletions {
            lemma_deletion_safety(dest_root@, src_root@, opts@);
        }
        lemma_ignore_containment(dest_root@, src_root@, opts@);
    }
    apply_actions::<SRC, DEST>(dest_fs, &actions, src_path, dst_root.as_str())?;
    let ghost av = acts_view(actions@);
    let ghost wv = strs_view(warnings@);
    let report = SyncReport { actions, warnings };
    proof {
        assert(acts_view(report.actions@) == av);
        assert(strs_view(report.warnings@) == wv);
        assert(dest_root@.wf() && src_root@.wf() && av == plan_spec(dest_root@, src_root@, opts@)
            && wv == warns_spec(dest_root@, src_root@, opts@));
    }
    Ok(report)
}

} // verus!
