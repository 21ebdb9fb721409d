//! The sync reconciler's decision core: derive the ordered, policy-driven
//! action plan that converges the destination toward the source.
//!
//! The plan speaks in relative paths (the trees' identity keys). Creates
//! and copies come first, in source order; deletions come last, children
//! before their directory, so that a deletion decision is never based on
//! pre-copy state and a directory is deleted only once nothing below it
//! survives.

use crate::entry::{FileMode, SyncFile, SyncFileV};
use crate::strutil::spec_matches_any_prefix;
use crate::tree::{has_rel, lookup_rel, Node, NodeV};
use vstd::prelude::*;

verus! {

/// Why an action (or a skip) was chosen; carried for observability.
#[derive(Clone, Copy, Debug, PartialEq, Eq, Structural)]
pub enum Reason {
    /// The source entry has no destination counterpart.
    NewOnDest,
    /// Paired files differ in size.
    SizeMismatch,
    /// Paired files agree in size and the source is strictly newer.
    SourceNewer,
    /// Paired files agree in size and the source is not newer.
    Unchanged,
    /// The destination entry has no source counterpart.
    RemovedFromSource,
}

/// One derived reconciliation action, over paths relative to the roots.
#[derive(Debug)]
pub enum Action {
    CreateDirectory { rel: String },
    CopyFile { rel: String, preserve_time: bool, mtime: u32, reason: Reason },
    DeleteFile { rel: String },
    DeleteDirectory { rel: String },
    Skip { rel: String, reason: Reason },
}

/// Mathematical image of an `Action`.
pub enum ActionV {
    CreateDirectory { rel: Seq<char> },
    CopyFile { rel: Seq<char>, preserve_time: bool, mtime: u32, reason: Reason },
    DeleteFile { rel: Seq<char> },
    DeleteDirectory { rel: Seq<char> },
    Skip { rel: Seq<char>, reason: Reason },
}

impl View for Action {
    type V = ActionV;

    open spec fn view(&self) -> ActionV {
        match self {
            Action::CreateDirectory { rel } => ActionV::CreateDirectory { rel: rel@ },
            Action::CopyFile { rel, preserve_time, mtime, reason } => ActionV::CopyFile {
                rel: rel@,
                preserve_time: *preserve_time,
                mtime: *mtime,
                reason: *reason,
            },
            Action::DeleteFile { rel } => ActionV::DeleteFile { rel: rel@ },
            Action::DeleteDirectory { rel } => ActionV::DeleteDirectory { rel: rel@ },
            Action::Skip { rel, reason } => ActionV::Skip { rel: rel@, reason: *reason },
        }
    }
}

impl ActionV {
    /// The relative path an action touches.
    pub open spec fn rel(self) -> Seq<char> {
        match self {
            ActionV::CreateDirectory { rel } => rel,
            ActionV::CopyFile { rel, .. } => rel,
            ActionV::DeleteFile { rel } => rel,
            ActionV::DeleteDirectory { rel } => rel,
            ActionV::Skip { rel, .. } => rel,
        }
    }

    /// Whether the action mutates the destination (everything but a skip).
    pub open spec fn is_mutation(self) -> bool {
        !(self is Skip)
    }

    /// Whether the action deletes something.
    pub open spec fn is_deletion(self) -> bool {
        self is DeleteFile || self is DeleteDirectory
    }
}

/// Policy flags of one synchronization pass.
pub struct SyncOptions {
    /// Remove destination entries that have no source counterpart.
    pub mirror_deletions: bool,
    /// Ask copies of stale paired files to carry the source time.
    pub preserve_times: bool,
    /// Relative-path prefixes to leave untouched on both sides.
    pub ignore_prefixes: Vec<String>,
    /// The destination platform cannot represent a name that ends in a
    /// dot; such a file is skipped with a warning instead of copied.
    pub reject_trailing_dot: bool,
    /// Report each decision; threaded explicitly instead of a global.
    pub verbose: bool,
}

/// Mathematical image of `SyncOptions`.
pub struct SyncOptionsV {
    pub mirror_deletions: bool,
    pub preserve_times: bool,
    pub ignore_prefixes: Seq<Seq<char>>,
    pub reject_trailing_dot: bool,
    pub verbose: bool,
}

impl View for SyncOptions {
    type V = SyncOptionsV;

    open spec fn view(&self) -> SyncOptionsV {
        SyncOptionsV {
            mirror_deletions: self.mirror_deletions,
            preserve_times: self.preserve_times,
            ignore_prefixes: self.ignore_prefixes.deep_view(),
            reject_trailing_dot: self.reject_trailing_dot,
            verbose: self.verbose,
        }
    }
}

/// Whether the configured verbosity flag is set.
pub fn is_verbose(opts: &SyncOptions) -> (r: bool)
    ensures
        r == opts@.verbose,
{
    opts.verbose
}

/// A relative path the policy puts out of reach of every action.
pub open spec fn ignored(rel: Seq<char>, opts: SyncOptionsV) -> bool {
    spec_matches_any_prefix(rel, opts.ignore_prefixes)
}

/// A name the destination platform cannot represent under this policy.
pub open spec fn dot_skipped(name: Seq<char>, opts: SyncOptionsV) -> bool {
    opts.reject_trailing_dot && name.len() > 0 && name.last() == '.'
}

/// Staleness verdict for one shared pair: a size mismatch, a strictly
/// newer source, or a pair of differing kinds is copied; equal kind and
/// size with a source not newer is skipped. A kind mismatch reports
/// `SizeMismatch`: the entry's shape differs.
pub open spec fn pair_plan(d: SyncFileV, s: SyncFileV, rel: Seq<char>, opts: SyncOptionsV) -> (Seq<
    ActionV,
>, Seq<Seq<char>>) {
    if d.size != s.size || d.mode != s.mode || s.timestamp > d.timestamp {
        if dot_skipped(s.name, opts) {
            (Seq::<ActionV>::empty(), seq![rel])
        } else {
            (
                seq![
                    ActionV::CopyFile {
                        rel,
                        preserve_time: opts.preserve_times,
                        mtime: s.timestamp,
                        reason: if d.size != s.size || d.mode != s.mode {
                            Reason::SizeMismatch
                        } else {
                            Reason::SourceNewer
                        },
                    },
                ],
                Seq::<Seq<char>>::empty(),
            )
        }
    } else {
        (seq![ActionV::Skip { rel, reason: Reason::Unchanged }], Seq::<Seq<char>>::empty())
    }
}

/// Actions that materialize a subtree that exists only on the source: a
/// directory is created, then its contents, in order; an ignored entry
/// contributes nothing; an unrepresentable file name becomes a warning.
pub open spec fn create_plan(n: NodeV, opts: SyncOptionsV) -> (Seq<ActionV>, Seq<Seq<char>>)
    decreases n, 0int,
{
    if ignored(n.strip_path, opts) {
        (Seq::<ActionV>::empty(), Seq::<Seq<char>>::empty())
    } else if n.sf.mode == FileMode::File {
        if dot_skipped(n.sf.name, opts) {
            (Seq::<ActionV>::empty(), seq![n.strip_path])
        } else {
            (
                seq![
                    ActionV::CopyFile {
                        rel: n.strip_path,
                        preserve_time: false,
                        mtime: n.sf.timestamp,
                        reason: Reason::NewOnDest,
                    },
                ],
                Seq::<Seq<char>>::empty(),
            )
        }
    } else if n.sf.mode == FileMode::Dir {
        let sub = create_plan_entries(n.entries, 0, opts);
        (seq![ActionV::CreateDirectory { rel: n.strip_path }] + sub.0, sub.1)
    } else {
        (Seq::<ActionV>::empty(), Seq::<Seq<char>>::empty())
    }
}

pub open spec fn create_plan_entries(es: Seq<NodeV>, i: int, opts: SyncOptionsV) -> (Seq<
    ActionV,
>, Seq<Seq<char>>)
    decreases es, es.len() - i,
{
    if i < 0 || i >= es.len() {
        (Seq::<ActionV>::empty(), Seq::<Seq<char>>::empty())
    } else {
        let h = create_plan(es[i], opts);
        let rest = create_plan_entries(es, i + 1, opts);
        (h.0 + rest.0, h.1 + rest.1)
    }
}

/// Nothing below `n` (including `n` itself) is ignored, so deleting the
/// whole subtree leaves no survivor behind.
pub open spec fn subtree_deletable(n: NodeV, opts: SyncOptionsV) -> bool
    decreases n,
{
    &&& !ignored(n.strip_path, opts)
    &&& forall|i: int|
        0 <= i < n.entries.len() ==> subtree_deletable(#[trigger] n.entries[i], opts)
}

/// Actions that remove a subtree that exists only on the destination:
/// children first, the directory itself last and only when nothing below
/// it survives; ignored entries and everything beneath them survive.
pub open spec fn delete_plan(n: NodeV, opts: SyncOptionsV) -> Seq<ActionV>
    decreases n, 0int,
{
    if ignored(n.strip_path, opts) {
        Seq::<ActionV>::empty()
    } else if n.sf.mode == FileMode::File {
        seq![ActionV::DeleteFile { rel: n.strip_path }]
    } else if n.sf.mode == FileMode::Dir {
        let sub = delete_plan_entries(n.entries, 0, opts);
        sub + if subtree_deletable(n, opts) {
            seq![ActionV::DeleteDirectory { rel: n.strip_path }]
        } else {
            Seq::<ActionV>::empty()
        }
    } else {
        Seq::<ActionV>::empty()
    }
}

pub open spec fn delete_plan_entries(es: Seq<NodeV>, i: int, opts: SyncOptionsV) -> Seq<ActionV>
    decreases es, es.len() - i,
{
    if i < 0 || i >= es.len() {
        Seq::<ActionV>::empty()
    } else {
        delete_plan(es[i], opts) + delete_plan_entries(es, i + 1, opts)
    }
}

/// The create/copy half of the plan: walk the source entries in order;
/// a source entry missing on the destination is materialized, a shared
/// file pair gets its staleness verdict, a shared directory pair is
/// descended into.
pub open spec fn copies_plan(dest: NodeV, src: NodeV, opts: SyncOptionsV) -> (Seq<ActionV>, Seq<
    Seq<char>,
>)
    decreases src, 0int,
{
    copies_entries(dest.entries, src.entries, 0, opts)
}

pub open spec fn copies_entries(de: Seq<NodeV>, se: Seq<NodeV>, i: int, opts: SyncOptionsV) -> (Seq<
    ActionV,
>, Seq<Seq<char>>)
    decreases se, se.len() - i,
{
    if i < 0 || i >= se.len() {
        (Seq::<ActionV>::empty(), Seq::<Seq<char>>::empty())
    } else {
        let e = se[i];
        let rest = copies_entries(de, se, i + 1, opts);
        let h: (Seq<ActionV>, Seq<Seq<char>>) = if ignored(e.strip_path, opts) {
            (Seq::<ActionV>::empty(), Seq::<Seq<char>>::empty())
        } else if !has_rel(de, e.strip_path) {
            create_plan(e, opts)
        } else {
            let d = lookup_rel(de, e.strip_path);
            if d.sf.mode == FileMode::Dir && e.sf.mode == FileMode::Dir {
                copies_plan(d, e, opts)
            } else {
                pair_plan(d.sf, e.sf, e.strip_path, opts)
            }
        };
        (h.0 + rest.0, h.1 + rest.1)
    }
}

/// The deletion half of the plan: walk the destination entries in order;
/// a destination entry missing on the source is removed under the mirror
/// policy (or marked as a skip without it), a shared directory pair is
/// descended into.
pub open spec fn deletes_plan(dest: NodeV, src: NodeV, opts: SyncOptionsV) -> Seq<ActionV>
    decreases dest, 0int,
{
    deletes_entries(dest.entries, src.entries, 0, opts)
}

pub open spec fn deletes_entries(de: Seq<NodeV>, se: Seq<NodeV>, i: int, opts: SyncOptionsV) -> Seq<
    ActionV,
>
    decreases de, de.len() - i,
{
    if i < 0 || i >= de.len() {
        Seq::<ActionV>::empty()
    } else {
        let e = de[i];
        let rest = deletes_entries(de, se, i + 1, opts);
        let h: Seq<ActionV> = if ignored(e.strip_path, opts) {
            Seq::<ActionV>::empty()
        } else if !has_rel(se, e.strip_path) {
            if opts.mirror_deletions {
                delete_plan(e, opts)
            } else {
                seq![ActionV::Skip { rel: e.strip_path, reason: Reason::RemovedFromSource }]
            }
        } else {
            let s = lookup_rel(se, e.strip_path);
            if s.sf.mode == FileMode::Dir && e.sf.mode == FileMode::Dir {
                deletes_plan(e, s, opts)
            } else {
                Seq::<ActionV>::empty()
            }
        };
        h + rest
    }
}

/// Abstraction of an action vector.
pub open spec fn acts_view(s: Seq<Action>) -> Seq<ActionV> {
    Seq::new(s.len(), |i: int| s[i]@)
}

/// Abstraction of a warning (relative path) vector.
pub open spec fn strs_view(s: Seq<String>) -> Seq<Seq<char>> {
    Seq::new(s.len(), |i: int| s[i]@)
}

/// Whether a name's last character is a dot.
fn ends_dot(name: &str) -> (r: bool)
    ensures
        r == (name@.len() > 0 && name@.last() == '.'),
{
    let n = name.unicode_len();
    if n == 0 {
        false
    } else {
        name.get_char(n - 1) == '.'
    }
}

/// Whether the policy skips this file name on the destination platform.
fn check_dot_skipped(name: &str, opts: &SyncOptions) -> (r: bool)
    ensures
        r == dot_skipped(name@, opts@),
{
    opts.reject_trailing_dot && ends_dot(name)
}

/// Whether the policy puts this relative path out of reach.
fn check_ignored(rel: &str, opts: &SyncOptions) -> (r: bool)
    ensures
        r == ignored(rel@, opts@),
{
    crate::strutil::matches_any_prefix(rel, &opts.ignore_prefixes)
}

/// The whole plan of one pass: creates and copies across the whole tree
/// first, deletions last.
pub open spec fn plan_spec(dest: NodeV, src: NodeV, opts: SyncOptionsV) -> Seq<ActionV> {
    copies_plan(dest, src, opts).0 + deletes_plan(dest, src, opts)
}

/// The warnings of one pass: the relative paths of files whose name the
/// destination platform cannot represent.
pub open spec fn warns_spec(dest: NodeV, src: NodeV, opts: SyncOptionsV) -> Seq<Seq<char>> {
    copies_plan(dest, src, opts).1
}

/// Append the staleness verdict of one paired file.
fn emit_pair(
    out: &mut Vec<Action>,
    warns: &mut Vec<String>,
    d: &SyncFile,
    s: &SyncFile,
    rel: &str,
    opts: &SyncOptions,
)
    ensures
        acts_view(final(out)@) == acts_view(old(out)@) + pair_plan(d@, s@, rel@, opts@).0,
        strs_view(final(warns)@) == strs_view(old(warns)@) + pair_plan(d@, s@, rel@, opts@).1,
{
    let ghost p = pair_plan(d@, s@, rel@, opts@);
    let ghost o0 = out@;
    let ghost w0 = warns@;
    let stale_size = d.size != s.size || d.mode != s.mode;
    let stale_time = s.timestamp > d.timestamp;
    if stale_size || stale_time {
        if check_dot_skipped(s.name.as_str(), opts) {
            warns.push(rel.to_owned());
            proof {
                assert(strs_view(warns@) =~= strs_view(w0) + p.1);
                assert(acts_view(out@) =~= acts_view(o0) + p.0);
            }
        } else {
            let reason = if stale_size {
                Reason::SizeMismatch
            } else {
                Reason::SourceNewer
            };
            out.push(
                Action::CopyFile {
                    rel: rel.to_owned(),
                    preserve_time: opts.preserve_times,
                    mtime: s.timestamp,
                    reason,
                },
            );
            proof {
                assert(acts_view(out@) =~= acts_view(o0) + p.0);
                assert(strs_view(warns@) =~= strs_view(w0) + p.1);
            }
        }
    } else {
        out.push(Action::Skip { rel: rel.to_owned(), reason: Reason::Unchanged });
        proof {
            assert(acts_view(out@) =~= acts_view(o0) + p.0);
            assert(strs_view(warns@) =~= strs_view(w0) + p.1);
        }
    }
}

/// Append the actions that materialize a source-only subtree.
fn create_emit(out: &mut Vec<Action>, warns: &mut Vec<String>, n: &Node, opts: &SyncOptions)
    ensures
        acts_view(final(out)@) == acts_view(old(out)@) + create_plan(n@, opts@).0,
        strs_view(final(warns)@) == strs_view(old(warns)@) + create_plan(n@, opts@).1,
    decreases *n,
{
    let ghost cp = create_plan(n@, opts@);
    let ghost o0 = out@;
    let ghost w0 = warns@;
    proof {
        crate::tree::lemma_node_view_entries(*n);
    }
    if check_ignored(n.strip_path.as_str(), opts) {
        proof {
            assert(acts_view(out@) =~= acts_view(o0) + cp.0);
            assert(strs_view(warns@) =~= strs_view(w0) + cp.1);
        }
        return ;
    }
    match n.sf.mode {
        FileMode::File => {
            if check_dot_skipped(n.sf.name.as_str(), opts) {
                warns.push(n.strip_path.clone());
                proof {
                    assert(strs_view(warns@) =~= strs_view(w0) + cp.1);
                    assert(acts_view(out@) =~= acts_view(o0) + cp.0);
                }
            } else {
                out.push(
                    Action::CopyFile {
                        rel: n.strip_path.clone(),
                        preserve_time: false,
                        mtime: n.sf.timestamp,
                        reason: Reason::NewOnDest,
                    },
                );
                proof {
                    assert(acts_view(out@) =~= acts_view(o0) + cp.0);
                    assert(strs_view(warns@) =~= strs_view(w0) + cp.1);
                }
            }
        },
        FileMode::Dir => {
            out.push(Action::CreateDirectory { rel: n.strip_path.clone() });
            let ghost o1 = out@;
            proof {
                assert(acts_view(o1) =~= acts_view(o0).push(
                    ActionV::CreateDirectory { rel: n@.strip_path },
                ));
            }
            let ghost es = n@.entries;
            let mut i: usize = 0;
            while i < n.entries.len()
                invariant
                    0 <= i <= n.entries@.len(),
                    es == n@.entries,
                    es == crate::tree::seq_view(n.entries@),
                    es.len() == n.entries@.len(),
                    acts_view(out@) + create_plan_entries(es, i as int, opts@).0 == acts_view(o1)
                        + create_plan_entries(es, 0, opts@).0,
                    strs_view(warns@) + create_plan_entries(es, i as int, opts@).1 == strs_view(
                        w0,
                    ) + create_plan_entries(es, 0, opts@).1,
                decreases n.entries@.len() - i,
            {
                let ghost oc = out@;
                let ghost wc = warns@;
                proof {
                    assert(es[i as int] == crate::tree::node_view(n.entries@[i as int]));
                }
                create_emit(out, warns, &n.entries[i], opts);
                proof {
                    let h = create_plan(es[i as int], opts@);
                    let rest = create_plan_entries(es, i as int + 1, opts@);
                    assert(create_plan_entries(es, i as int, opts@).0 == h.0 + rest.0);
                    assert(create_plan_entries(es, i as int, opts@).1 == h.1 + rest.1);
                    assert((acts_view(oc) + h.0) + rest.0 =~= acts_view(oc) + (h.0 + rest.0));
                    assert((strs_view(wc) + h.1) + rest.1 =~= strs_view(wc) + (h.1 + rest.1));
                }
                i = i + 1;
            }
            proof {
                let sub = create_plan_entries(es, 0, opts@);
                assert(create_plan_entries(es, es.len() as int, opts@).0
                    == Seq::<ActionV>::empty());
                assert(acts_view(out@) + Seq::<ActionV>::empty() =~= acts_view(out@));
                assert(strs_view(warns@) + Seq::<Seq<char>>::empty() =~= strs_view(warns@));
                assert(cp.0 == seq![ActionV::CreateDirectory { rel: n@.strip_path }] + sub.0);
                assert(acts_view(o0).push(ActionV::CreateDirectory { rel: n@.strip_path })
                    + sub.0 =~= acts_view(o0) + cp.0);
                assert(strs_view(w0) + sub.1 == strs_view(w0) + cp.1);
            }
        },
        FileMode::Symlink => {
            proof {
                assert(acts_view(out@) =~= acts_view(o0) + cp.0);
                assert(strs_view(warns@) =~= strs_view(w0) + cp.1);
            }
        },
    }
}

/// Whether the whole subtree below `n` may be deleted (nothing in it is
/// ignored).
fn check_deletable(n: &Node, opts: &SyncOptions) -> (r: bool)
    ensures
        r == subtree_deletable(n@, opts@),
    decreases *n,
{
    proof {
        crate::tree::lemma_node_view_entries(*n);
    }
    if check_ignored(n.strip_path.as_str(), opts) {
        return false;
    }
    let ghost es = n@.entries;
    let mut i: usize = 0;
    while i < n.entries.len()
        invariant
            0 <= i <= n.entries@.len(),
            es == n@.entries,
            es == crate::tree::seq_view(n.entries@),
            es.len() == n.entries@.len(),
            forall|k: int| 0 <= k < i ==> subtree_deletable(#[trigger] es[k], opts@),
        decreases n.entries@.len() - i,
    {
        proof {
            assert(es[i as int] == crate::tree::node_view(n.entries@[i as int]));
        }
        if !check_deletable(&n.entries[i], opts) {
            assert(!subtree_deletable(es[i as int], opts@));
            return false;
        }
        i = i + 1;
    }
    true
}

/// Append the actions that remove a destination-only subtree.
fn delete_emit(out: &mut Vec<Action>, n: &Node, opts: &SyncOptions)
    ensures
        acts_view(final(out)@) == acts_view(old(out)@) + delete_plan(n@, opts@),
    decreases *n,
{
    let ghost dp = delete_plan(n@, opts@);
    let ghost o0 = out@;
    proof {
        crate::tree::lemma_node_view_entries(*n);
    }
    if check_ignored(n.strip_path.as_str(), opts) {
        proof {
            assert(acts_view(out@) =~= acts_view(o0) + dp);
        }
        return ;
    }
    match n.sf.mode {
        FileMode::File => {
            out.push(Action::DeleteFile { rel: n.strip_path.clone() });
            proof {
                assert(acts_view(out@) =~= acts_view(o0) + dp);
            }
        },
        FileMode::Dir => {
            let ghost es = n@.entries;
            let mut i: usize = 0;
            while i < n.entries.len()
                invariant
                    0 <= i <= n.entries@.len(),
                    es == n@.entries,
                    es == crate::tree::seq_view(n.entries@),
                    es.len() == n.entries@.len(),
                    acts_view(out@) + delete_plan_entries(es, i as int, opts@) == acts_view(o0)
                        + delete_plan_entries(es, 0, opts@),
                decreases n.entries@.len() - i,
            {
                let ghost oc = out@;
                proof {
                    assert(es[i as int] == crate::tree::node_view(n.entries@[i as int]));
                }
                delete_emit(out, &n.entries[i], opts);
                proof {
                    let h = delete_plan(es[i as int], opts@);
                    let rest = delete_plan_entries(es, i as int + 1, opts@);
                    assert(delete_plan_entries(es, i as int, opts@) == h + rest);
                    assert((acts_view(oc) + h) + rest =~= acts_view(oc) + (h + rest));
                }
                i = i + 1;
            }
            if check_deletable(n, opts) {
                out.push(Action::DeleteDirectory { rel: n.strip_path.clone() });
            }
            proof {
                let sub = delete_plan_entries(es, 0, opts@);
                assert(delete_plan_entries(es, es.len() as int, opts@) == Seq::<ActionV>::empty());
                if subtree_deletable(n@, opts@) {
                    assert(dp == sub + seq![ActionV::DeleteDirectory { rel: n@.strip_path }]);
                    assert(acts_view(out@) =~= (acts_view(o0) + sub).push(
                        ActionV::DeleteDirectory { rel: n@.strip_path },
                    ));
                    assert((acts_view(o0) + sub).push(ActionV::DeleteDirectory {
                        rel: n@.strip_path,
                    }) =~= acts_view(o0) + dp);
                } else {
                    assert(dp == sub + Seq::<ActionV>::empty());
                    assert(acts_view(out@) + Seq::<ActionV>::empty() =~= acts_view(out@));
                    assert(acts_view(out@) =~= acts_view(o0) + dp);
                }
            }
        },
        FileMode::Symlink => {
            proof {
                assert(acts_view(out@) =~= acts_view(o0) + dp);
            }
        },
    }
}

/// Append the create/copy half of the plan for two well-formed trees.
fn copies_emit(
    out: &mut Vec<Action>,
    warns: &mut Vec<String>,
    dest: &Node,
    src: &Node,
    opts: &SyncOptions,
)
    requires
        dest@.wf(),
        src@.wf(),
    ensures
        acts_view(final(out)@) == acts_view(old(out)@) + copies_plan(dest@, src@, opts@).0,
        strs_view(final(warns)@) == strs_view(old(warns)@) + copies_plan(dest@, src@, opts@).1,
    decreases *src,
{
    let ghost dv = dest@;
    let ghost sv = src@;
    let ghost o0 = out@;
    let ghost w0 = warns@;
    proof {
        crate::tree::lemma_node_view_entries(*dest);
        crate::tree::lemma_node_view_entries(*src);
    }
    let mut i: usize = 0;
    while i < src.entries.len()
        invariant
            0 <= i <= src.entries@.len(),
            dv == dest@,
            sv == src@,
            dv.wf(),
            sv.wf(),
            dv.entries == crate::tree::seq_view(dest.entries@),
            sv.entries == crate::tree::seq_view(src.entries@),
            sv.entries.len() == src.entries@.len(),
            acts_view(out@) + copies_entries(dv.entries, sv.entries, i as int, opts@).0
                == acts_view(o0) + copies_entries(dv.entries, sv.entries, 0, opts@).0,
            strs_view(warns@) + copies_entries(dv.entries, sv.entries, i as int, opts@).1
                == strs_view(w0) + copies_entries(dv.entries, sv.entries, 0, opts@).1,
        decreases src.entries@.len() - i,
    {
        let ghost e = sv.entries[i as int];
        let ghost rel = e.strip_path;
        let ghost oc = out@;
        let ghost wc = warns@;
        proof {
            assert(e == crate::tree::node_view(src.entries@[i as int]));
            assert(e.wf_child_of(sv.strip_path));
        }
        if check_ignored(src.entries[i].strip_path.as_str(), opts) {
            proof {
                let rest = copies_entries(dv.entries, sv.entries, i as int + 1, opts@);
                assert(copies_entries(dv.entries, sv.entries, i as int, opts@).0
                    =~= Seq::<ActionV>::empty() + rest.0);
                assert(Seq::<ActionV>::empty() + rest.0 =~= rest.0);
                assert(Seq::<Seq<char>>::empty() + rest.1 =~= rest.1);
            }
        } else {
            match crate::tree::find_entry(&dest.entries, src.entries[i].strip_path.as_str()) {
                None => {
                    proof {
                        if has_rel(dv.entries, rel) {
                            let k = choose|k: int|
                                0 <= k < dv.entries.len() && #[trigger] dv.entries[k].strip_path
                                    == rel;
                            assert(dv.entries[k] == crate::tree::node_view(dest.entries@[k]));
                            assert(dest.entries@[k].strip_path@ == rel);
                            assert(false);
                        }
                    }
                    create_emit(out, warns, &src.entries[i], opts);
                    proof {
                        let h = create_plan(e, opts@);
                        let rest = copies_entries(dv.entries, sv.entries, i as int + 1, opts@);
                        assert(copies_entries(dv.entries, sv.entries, i as int, opts@).0 == h.0
                            + rest.0);
                        assert((acts_view(oc) + h.0) + rest.0 =~= acts_view(oc) + (h.0 + rest.0));
                        assert((strs_view(wc) + h.1) + rest.1 =~= strs_view(wc) + (h.1 + rest.1));
                    }
                },
                Some(j) => {
                    proof {
                        assert(dv.entries[j as int] == crate::tree::node_view(
                            dest.entries@[j as int],
                        ));
                        assert(dv.entries[j as int].strip_path == rel);
                        crate::tree::lemma_lookup_at(dv.entries, j as int);
                        assert(has_rel(dv.entries, rel));
                        assert(lookup_rel(dv.entries, rel) == dv.entries[j as int]);
                        assert(dv.entries[j as int].wf_child_of(dv.strip_path));
                    }
                    let d = &dest.entries[j];
                    let s = &src.entries[i];
                    proof {
                        assert(d@ == dv.entries[j as int]);
                        assert(s@ == e);
                    }
                    if d.sf.mode == FileMode::Dir && s.sf.mode == FileMode::Dir {
                        copies_emit(out, warns, d, s, opts);
                        proof {
                            let h = copies_plan(d@, e, opts@);
                            let rest = copies_entries(
                                dv.entries,
                                sv.entries,
                                i as int + 1,
                                opts@,
                            );
                            assert(copies_entries(dv.entries, sv.entries, i as int, opts@).0
                                == h.0 + rest.0);
                            assert((acts_view(oc) + h.0) + rest.0 =~= acts_view(oc) + (h.0
                                + rest.0));
                            assert((strs_view(wc) + h.1) + rest.1 =~= strs_view(wc) + (h.1
                                + rest.1));
                        }
                    } else {
                        emit_pair(out, warns, &d.sf, &s.sf, s.strip_path.as_str(), opts);
                        proof {
                            let h = pair_plan(d@.sf, e.sf, rel, opts@);
                            let rest = copies_entries(
                                dv.entries,
                                sv.entries,
                                i as int + 1,
                                opts@,
                            );
                            assert(copies_entries(dv.entries, sv.entries, i as int, opts@).0
                                == h.0 + rest.0);
                            assert((acts_view(oc) + h.0) + rest.0 =~= acts_view(oc) + (h.0
                                + rest.0));
                            assert((strs_view(wc) + h.1) + rest.1 =~= strs_view(wc) + (h.1
                                + rest.1));
                        }
                    }
                },
            }
        }
        i = i + 1;
    }
    proof {
        assert(copies_entries(dv.entries, sv.entries, sv.entries.len() as int, opts@).0
            == Seq::<ActionV>::empty());
        assert(acts_view(out@) + Seq::<ActionV>::empty() =~= acts_view(out@));
        assert(strs_view(warns@) + Seq::<Seq<char>>::empty() =~= strs_view(warns@));
        assert(copies_plan(dv, sv, opts@).0 == copies_entries(dv.entries, sv.entries, 0, opts@).0);
    }
}

/// Append the deletion half of the plan for two well-formed trees.
fn deletes_emit(out: &mut Vec<Action>, dest: &Node, src: &Node, opts: &SyncOptions)
    requires
        dest@.wf(),
        src@.wf(),
    ensures
        acts_view(final(out)@) == acts_view(old(out)@) + deletes_plan(dest@, src@, opts@),
    decreases *dest,
{
    let ghost dv = dest@;
    let ghost sv = src@;
    let ghost o0 = out@;
    proof {
        crate::tree::lemma_node_view_entries(*dest);
        crate::tree::lemma_node_view_entries(*src);
    }
    let mut i: usize = 0;
    while i < dest.entries.len()
        invariant
            0 <= i <= dest.entries@.len(),
            dv == dest@,
            sv == src@,
            dv.wf(),
            sv.wf(),
            dv.entries == crate::tree::seq_view(dest.entries@),
            sv.entries == crate::tree::seq_view(src.entries@),
            dv.entries.len() == dest.entries@.len(),
            acts_view(out@) + deletes_entries(dv.entries, sv.entries, i as int, opts@)
                == acts_view(o0) + deletes_entries(dv.entries, sv.entries, 0, opts@),
        decreases dest.entries@.len() - i,
    {
        let ghost e = dv.entries[i as int];
        let ghost rel = e.strip_path;
        let ghost oc = out@;
        proof {
            assert(e == crate::tree::node_view(dest.entries@[i as int]));
            assert(e.wf_child_of(dv.strip_path));
        }
        if check_ignored(dest.entries[i].strip_path.as_str(), opts) {
            proof {
                let rest = deletes_entries(dv.entries, sv.entries, i as int + 1, opts@);
                assert(deletes_entries(dv.entries, sv.entries, i as int, opts@)
                    =~= Seq::<ActionV>::empty() + rest);
                assert(Seq::<ActionV>::empty() + rest =~= rest);
            }
        } else {
            match crate::tree::find_entry(&src.entries, dest.entries[i].strip_path.as_str()) {
                None => {
                    proof {
                        if has_rel(sv.entries, rel) {
                            let k = choose|k: int|
                                0 <= k < sv.entries.len() && #[trigger] sv.entries[k].strip_path
                                    == rel;
                            assert(sv.entries[k] == crate::tree::node_view(src.entries@[k]));
                            assert(src.entries@[k].strip_path@ == rel);
                            assert(false);
                        }
                    }
                    if opts.mirror_deletions {
                        delete_emit(out, &dest.entries[i], opts);
                        proof {
                            let h = delete_plan(e, opts@);
                            let rest = deletes_entries(dv.entries, sv.entries, i as int + 1, opts@);
                            assert(deletes_entries(dv.entries, sv.entries, i as int, opts@) == h
                                + rest);
                            assert((acts_view(oc) + h) + rest =~= acts_view(oc) + (h + rest));
                        }
                    } else {
                        out.push(
                            Action::Skip {
                                rel: dest.entries[i].strip_path.clone(),
                                reason: Reason::RemovedFromSource,
                            },
                        );
                        proof {
                            let h = seq![
                                ActionV::Skip { rel, reason: Reason::RemovedFromSource },
                            ];
                            let rest = deletes_entries(dv.entries, sv.entries, i as int + 1, opts@);
                            assert(deletes_entries(dv.entries, sv.entries, i as int, opts@) == h
                                + rest);
                            assert(acts_view(out@) =~= acts_view(oc) + h);
                            assert((acts_view(oc) + h) + rest =~= acts_view(oc) + (h + rest));
                        }
                    }
                },
                Some(j) => {
                    proof {
                        assert(sv.entries[j as int] == crate::tree::node_view(
                            src.entries@[j as int],
                        ));
                        assert(sv.entries[j as int].strip_path == rel);
                        crate::tree::lemma_lookup_at(sv.entries, j as int);
                        assert(has_rel(sv.entries, rel));
                        assert(lookup_rel(sv.entries, rel) == sv.entries[j as int]);
                        assert(sv.entries[j as int].wf_child_of(sv.strip_path));
                    }
                    let s = &src.entries[j];
                    let d = &dest.entries[i];
                    proof {
                        assert(s@ == sv.entries[j as int]);
                        assert(d@ == e);
                    }
                    if s.sf.mode == FileMode::Dir && d.sf.mode == FileMode::Dir {
                        deletes_emit(out, d, s, opts);
                        proof {
                            let h = deletes_plan(e, s@, opts@);
                            let rest = deletes_entries(dv.entries, sv.entries, i as int + 1, opts@);
                            assert(deletes_entries(dv.entries, sv.entries, i as int, opts@) == h
                                + rest);
                            assert((acts_view(oc) + h) + rest =~= acts_view(oc) + (h + rest));
                        }
                    } else {
                        proof {
                            let rest = deletes_entries(dv.entries, sv.entries, i as int + 1, opts@);
                            assert(deletes_entries(dv.entries, sv.entries, i as int, opts@)
                                =~= Seq::<ActionV>::empty() + rest);
                            assert(Seq::<ActionV>::empty() + rest =~= rest);
                        }
                    }
                },
            }
        }
        i = i + 1;
    }
    proof {
        assert(deletes_entries(dv.entries, sv.entries, dv.entries.len() as int, opts@)
            == Seq::<ActionV>::empty());
        assert(acts_view(out@) + Seq::<ActionV>::empty() =~= acts_view(out@));
        assert(deletes_plan(dv, sv, opts@) == deletes_entries(dv.entries, sv.entries, 0, opts@));
    }
}

/// Derive the ordered action plan of one synchronization pass over two
/// well-formed snapshots, together with the warnings for file names the
/// destination platform cannot represent. Creates and copies come first,
/// in source order; deletions come last, children before their directory.
pub fn compute_plan(dest_root: &Node, src_root: &Node, opts: &SyncOptions) -> (r: (Vec<
    Action,
>, Vec<String>))
    requires
        dest_root@.wf(),
        src_root@.wf(),
    ensures
        acts_view(r.0@) == plan_spec(dest_root@, src_root@, opts@),
        strs_view(r.1@) == warns_spec(dest_root@, src_root@, opts@),
{
    let mut out: Vec<Action> = Vec::new();
    let mut warns: Vec<String> = Vec::new();
    proof {
        assert(acts_view(out@) =~= Seq::<ActionV>::empty());
        assert(strs_view(warns@) =~= Seq::<Seq<char>>::empty());
    }
    copies_emit(&mut out, &mut warns, dest_root, src_root, opts);
    deletes_emit(&mut out, dest_root, src_root, opts);
    proof {
        let c = copies_plan(dest_root@, src_root@, opts@);
        let d = deletes_plan(dest_root@, src_root@, opts@);
        assert(Seq::<ActionV>::empty() + c.0 =~= c.0);
        assert(Seq::<Seq<char>>::empty() + c.1 =~= c.1);
        assert(acts_view(out@) =~= c.0 + d);
    }
    (out, warns)
}

} // verus!
