//! In-memory tree snapshots and the structural differ.
//!
//! A `Node` owns one entry and the subtree below it. Its `strip_path` —
//! the entry's path with the snapshot's root prefix removed — is the sole
//! identity key for structural comparison; size and modification time are
//! deliberately excluded from identity so that presence on the other side
//! is answered independently of staleness.

use crate::entry::{FileMode, SyncFile, SyncFileV};
use crate::fs::{FileSystem, SyncError};
use crate::path::{check_clean_path, clean_path, spec_strip_prefix, unix_strip_prefix};
use crate::strutil::{check_valid_name, rel_join, spec_rel_join, str_eq, valid_name};
use vstd::prelude::*;

verus! {

/// One vertex of an in-memory tree snapshot.
pub struct Node {
    /// The entry this vertex describes.
    pub sf: SyncFile,
    /// Child vertices; meaningful only below a directory entry.
    pub entries: Vec<Node>,
    /// The entry's path relative to the snapshot root: the identity key.
    pub strip_path: String,
}

/// Mathematical image of a `Node`.
#[verifier::ext_equal]
pub struct NodeV {
    pub sf: SyncFileV,
    pub entries: Seq<NodeV>,
    pub strip_path: Seq<char>,
}

/// Mathematical image of a tree snapshot.
pub open spec fn node_view(n: Node) -> NodeV
    decreases n,
{
    NodeV {
        sf: n.sf@,
        entries: Seq::new(
            n.entries@.len(),
            |i: int|
                if 0 <= i < n.entries@.len() {
                    node_view(n.entries@[i])
                } else {
                    NodeV { sf: n.sf@, entries: Seq::empty(), strip_path: Seq::empty() }
                },
        ),
        strip_path: n.strip_path@,
    }
}

impl View for Node {
    type V = NodeV;

    open spec fn view(&self) -> NodeV {
        node_view(*self)
    }
}

/// Some entry of `s` carries the relative path `rel`.
pub open spec fn has_rel(s: Seq<NodeV>, rel: Seq<char>) -> bool {
    exists|i: int| 0 <= i < s.len() && #[trigger] s[i].strip_path == rel
}

/// The index of the entry of `s` carrying `rel`; meaningful when `has_rel`
/// holds, and unique under well-formedness.
pub open spec fn rel_index(s: Seq<NodeV>, rel: Seq<char>) -> int {
    choose|i: int| 0 <= i < s.len() && #[trigger] s[i].strip_path == rel
}

/// The entry of `s` carrying `rel`.
pub open spec fn lookup_rel(s: Seq<NodeV>, rel: Seq<char>) -> NodeV {
    s[rel_index(s, rel)]
}

impl NodeV {
    /// Well-formedness of a snapshot tree: sibling identity keys are unique;
    /// every child's key extends its parent's by the child's own valid name;
    /// no symlink stands below a vertex.
    pub open spec fn wf(self) -> bool
        decreases self, 0int,
    {
        &&& (forall|i: int, j: int|
            0 <= i < j < self.entries.len() ==> #[trigger] self.entries[i].strip_path != #[trigger] self.entries[j].strip_path)
        &&& (forall|i: int|
            0 <= i < self.entries.len() ==> (#[trigger] self.entries[i]).wf_child_of(
                self.strip_path,
            ))
    }

    /// The per-child part of `wf`.
    pub open spec fn wf_child_of(self, parent_rel: Seq<char>) -> bool
        decreases self, 1int,
    {
        &&& valid_name(self.sf.name)
        &&& self.strip_path == spec_rel_join(parent_rel, self.sf.name)
        &&& self.sf.mode != FileMode::Symlink
        &&& self.wf()
    }

    /// Every vertex of the snapshot keys itself against the root prefix:
    /// its absolute path is slash-normalized and strips under `prefix` to
    /// exactly its identity key.
    pub open spec fn rooted(self, prefix: Seq<char>) -> bool
        decreases self,
    {
        &&& clean_path(self.sf.path)
        &&& spec_strip_prefix(self.sf.path, prefix) == Some(self.strip_path)
        &&& forall|i: int|
            0 <= i < self.entries.len() ==> (#[trigger] self.entries[i]).rooted(prefix)
    }
}

impl Node {
    /// Wrap one listed entry as a leaf vertex, deriving its identity key by
    /// stripping the snapshot root `prefix` from the entry's absolute path.
    /// A path that is not slash-normalized, or that does not carry the
    /// prefix, signals a defect in tree construction and is fatal.
    pub fn new(sf: SyncFile, prefix: &str) -> (r: Result<Node, SyncError>)
        ensures
            match r {
                Ok(n) => {
                    &&& clean_path(sf@.path)
                    &&& clean_path(prefix@)
                    &&& spec_strip_prefix(sf@.path, prefix@) == Some(n.strip_path@)
                    &&& n.sf@ == sf@
                    &&& n.entries@.len() == 0
                },
                Err(e) => {
                    &&& !(clean_path(sf@.path) && clean_path(prefix@) && spec_strip_prefix(
                        sf@.path,
                        prefix@,
                    ) is Some)
                    &&& (e is MalformedPath || e is PrefixMismatch)
                },
            },
    {
        if !check_clean_path(sf.path.as_str()) || !check_clean_path(prefix) {
            return Err(SyncError::MalformedPath);
        }
        match unix_strip_prefix(sf.path.as_str(), prefix) {
            Some(rel) => Ok(Node { sf, entries: Vec::new(), strip_path: rel }),
            None => Err(SyncError::PrefixMismatch),
        }
    }

    /// A deep copy whose abstract value equals the original's.
    pub fn duplicate(&self) -> (r: Node)
        ensures
            r@ == self@,
        decreases *self,
    {
        let mut entries: Vec<Node> = Vec::new();
        let mut i: usize = 0;
        while i < self.entries.len()
            invariant
                0 <= i <= self.entries.len(),
                entries@.len() == i,
                forall|k: int| 0 <= k < i ==> #[trigger] entries@[k]@ == self.entries@[k]@,
            decreases self.entries.len() - i,
        {
            let c = self.entries[i].duplicate();
            entries.push(c);
            i = i + 1;
        }
        proof {
            assert(entries@.len() == self.entries@.len());
        }
        let ghost evs = entries@;
        let r = Node {
            sf: self.sf.duplicate(),
            entries,
            strip_path: self.strip_path.clone(),
        };
        proof {
            assert(r.entries@ == evs);
            assert(r@.entries.len() == r.entries@.len());
            assert(self@.entries.len() == self.entries@.len());
            assert forall|k: int| 0 <= k < r@.entries.len() implies r@.entries[k]
                == self@.entries[k] by {
                assert(evs[k]@ == self.entries@[k]@);
            }
            assert(r@.entries =~= self@.entries);
            assert(r@ =~= self@);
        }
        r
    }
}

impl Node {
    /// Insert `child` into this vertex's child set; an entry whose identity
    /// key is already present is kept as it is (set semantics).
    fn insert_child(&mut self, child: Node, Ghost(prefix): Ghost<Seq<char>>)
        requires
            old(self)@.wf(),
            child@.wf_child_of(old(self)@.strip_path),
            old(self)@.rooted(prefix),
            child@.rooted(prefix),
        ensures
            final(self)@.wf(),
            final(self)@.sf == old(self)@.sf,
            final(self)@.strip_path == old(self)@.strip_path,
            final(self)@.rooted(prefix),
    {
        match find_entry(&self.entries, child.strip_path.as_str()) {
            Some(_) => {
            },
            None => {
                let ghost oldv = self@;
                let ghost oldes = self.entries@;
                self.entries.push(child);
                proof {
                    assert(self.entries@ == oldes.push(child));
                    assert(self@.entries.len() == oldv.entries.len() + 1);
                    assert forall|k: int| 0 <= k < oldv.entries.len() implies self@.entries[k]
                        == oldv.entries[k] by {
                        assert(self.entries@[k] == oldes[k]);
                    }
                    assert(self@.entries[oldv.entries.len() as int] == child@);
                    assert forall|i: int, j: int|
                        0 <= i < j < self@.entries.len() implies #[trigger] self@.entries[i].strip_path
                        != #[trigger] self@.entries[j].strip_path by {
                        if j < oldv.entries.len() {
                            assert(oldv.entries[i].strip_path != oldv.entries[j].strip_path);
                        } else {
                            assert(self@.entries[j] == child@);
                            assert(self@.entries[i] == oldv.entries[i]);
                            assert(oldv.entries[i] == node_view(oldes[i]));
                            assert(node_view(oldes[i]).strip_path == oldes[i].strip_path@);
                            assert(oldes[i].strip_path@ != child.strip_path@);
                            assert(child@.strip_path == child.strip_path@);
                        }
                    }
                    assert forall|i: int|
                        0 <= i < self@.entries.len() implies (#[trigger] self@.entries[i]).wf_child_of(
                        self@.strip_path,
                    ) by {
                        if i < oldv.entries.len() {
                            assert(oldv.entries[i].wf_child_of(oldv.strip_path));
                        } else {
                            assert(self@.entries[i] == child@);
                        }
                    }
                    assert forall|i: int|
                        0 <= i < self@.entries.len() implies (#[trigger] self@.entries[i]).rooted(
                        prefix,
                    ) by {
                        if i < oldv.entries.len() {
                            assert(self@.entries[i] == oldv.entries[i]);
                            assert(oldv.entries[i].rooted(prefix));
                        } else {
                            assert(self@.entries[i] == child@);
                        }
                    }
                }
            },
        }
    }
}

/// Depth ceiling for tree materialization; deeper nesting than any real
/// hierarchy carries, kept finite so that every walk provably ends.
pub const MAX_DEPTH: u64 = 4096;

/// Recursively materialize the hierarchy below `node`.
fn build_tree_rec<FS: FileSystem>(
    fs: &mut FS,
    node: &mut Node,
    prefix: &str,
    ignore: &Vec<String>,
    depth: u64,
) -> (r: Result<(), SyncError>)
    requires
        old(node)@.wf(),
        old(node)@.rooted(prefix@),
    ensures
        final(node)@.sf == old(node)@.sf,
        final(node)@.strip_path == old(node)@.strip_path,
        final(node)@.wf(),
        final(node)@.rooted(prefix@),
    decreases depth,
{
    if depth == 0 {
        return Err(SyncError::ScanLimit);
    }
    let listing = match fs.list_dir(node.sf.path.as_str()) {
        Ok(l) => l,
        Err(e) => {
            return Err(e);
        },
    };
    let mut i: usize = 0;
    while i < listing.len()
        invariant
            depth >= 1,
            node@.wf(),
            node@.rooted(prefix@),
            node@.sf == old(node)@.sf,
            node@.strip_path == old(node)@.strip_path,
        decreases listing@.len() - i,
    {
        let entry = listing[i].duplicate();
        let mode = entry.mode;
        let child = match Node::new(entry, prefix) {
            Ok(c) => c,
            Err(e) => {
                return Err(e);
            },
        };
        if !check_valid_name(child.sf.name.as_str()) {
            return Err(SyncError::InconsistentListing);
        }
        let expected = rel_join(node.strip_path.as_str(), child.sf.name.as_str());
        if !str_eq(child.strip_path.as_str(), expected.as_str()) {
            return Err(SyncError::InconsistentListing);
        }
        proof {
            assert(child@.entries.len() == 0);
            assert(child@.rooted(prefix@));
        }
        if !crate::strutil::matches_any_prefix(child.strip_path.as_str(), ignore) {
            match mode {
                FileMode::File => {
                    node.insert_child(child, Ghost(prefix@));
                },
                FileMode::Dir => {
                    let mut child = child;
                    match build_tree_rec(fs, &mut child, prefix, ignore, depth - 1) {
                        Ok(()) => {
                        },
                        Err(e) => {
                            return Err(e);
                        },
                    }
                    node.insert_child(child, Ghost(prefix@));
                },
                FileMode::Symlink => {
                    return Err(SyncError::SymlinkUnsupported);
                },
            }
        }
        i = i + 1;
    }
    Ok(())
}

/// Materialize one side's hierarchy, rooted at `sf`, into an in-memory
/// tree snapshot, listing each directory once. Identity keys are computed
/// against `prefix`: every vertex of the returned tree carries as its key
/// exactly its own path with `prefix` stripped (`rooted`). Subtrees whose
/// key starts with one of the `ignore` prefixes are fully skipped, not
/// even listed. A symlink anywhere below the root is fatal, as is a child
/// entry that contradicts its listing; an unnormalized root path, or one
/// that `prefix` does not lead, fails before the first listing.
pub fn build_tree<FS: FileSystem>(
    fs: &mut FS,
    sf: SyncFile,
    prefix: &str,
    ignore: &Vec<String>,
) -> (r: Result<Node, SyncError>)
    ensures
        match r {
            Ok(n) => {
                &&& n@.wf()
                &&& n@.rooted(prefix@)
                &&& n@.sf == sf@
                &&& clean_path(sf@.path)
                &&& clean_path(prefix@)
                &&& spec_strip_prefix(sf@.path, prefix@) == Some(n@.strip_path)
            },
            Err(e) => !(clean_path(sf@.path) && clean_path(prefix@) && spec_strip_prefix(
                sf@.path,
                prefix@,
            ) is Some) ==> (e is MalformedPath || e is PrefixMismatch),
        },
        !(clean_path(sf@.path) && clean_path(prefix@) && spec_strip_prefix(sf@.path, prefix@)
            is Some) ==> r is Err,
{
    let mut root = match Node::new(sf, prefix) {
        Ok(n) => n,
        Err(e) => {
            return Err(e);
        },
    };
    proof {
        assert(root@.entries.len() == 0);
        assert(root@.rooted(prefix@));
    }
    match build_tree_rec(fs, &mut root, prefix, ignore, MAX_DEPTH) {
        Ok(()) => Ok(root),
        Err(e) => Err(e),
    }
}

/// Abstraction of a sequence of vertices.
pub open spec fn seq_view(s: Seq<Node>) -> Seq<NodeV> {
    Seq::new(s.len(), |i: int| node_view(s[i]))
}

/// Abstraction of a sequence of entry pairs.
pub open spec fn pairs_view(s: Seq<(SyncFile, SyncFile)>) -> Seq<(SyncFileV, SyncFileV)> {
    Seq::new(s.len(), |i: int| (s[i].0@, s[i].1@))
}

/// The entries of `src`, in order, whose identity key is absent from
/// `other`, starting at position `i`.
pub open spec fn missing_in(src: Seq<NodeV>, other: Seq<NodeV>, i: int) -> Seq<NodeV>
    decreases src.len() - i,
{
    if i < 0 || i >= src.len() {
        Seq::empty()
    } else {
        let head: Seq<NodeV> = if !has_rel(other, src[i].strip_path) {
            seq![src[i]]
        } else {
            Seq::empty()
        };
        head + missing_in(src, other, i + 1)
    }
}

/// The recursive part of the structural diff: walk the entries of `b` from
/// position `i`; for each entry shared with `a` by identity key, pair two
/// files (or a kind mismatch) for staleness comparison, and descend into a
/// shared directory.
pub open spec fn diff_shared(ae: Seq<NodeV>, be: Seq<NodeV>, i: int) -> (Seq<NodeV>, Seq<
    NodeV,
>, Seq<(SyncFileV, SyncFileV)>)
    decreases be, be.len() - i, 0int,
{
    if i < 0 || i >= be.len() {
        (Seq::<NodeV>::empty(), Seq::<NodeV>::empty(), Seq::<(SyncFileV, SyncFileV)>::empty())
    } else {
        let e = be[i];
        let rest = diff_shared(ae, be, i + 1);
        if has_rel(ae, e.strip_path) {
            let ax = lookup_rel(ae, e.strip_path);
            if ax.sf.mode == FileMode::Dir && e.sf.mode == FileMode::Dir {
                let sub = diff_spec(ax, e);
                (sub.0 + rest.0, sub.1 + rest.1, sub.2 + rest.2)
            } else {
                (rest.0, rest.1, seq![(ax.sf, e.sf)] + rest.2)
            }
        } else {
            rest
        }
    }
}

/// Structural diff of two trees by identity key. The first component holds
/// the entries under `b` absent from `a`, the second the entries under `a`
/// absent from `b` (each such subtree as a single vertex), the third the
/// shared pairs `(entry in a, entry in b)` recorded for staleness
/// comparison; shared directories are descended into, never paired.
pub open spec fn diff_spec(a: NodeV, b: NodeV) -> (Seq<NodeV>, Seq<NodeV>, Seq<
    (SyncFileV, SyncFileV),
>)
    decreases b, b.entries.len(), 1int,
{
    let m1 = missing_in(b.entries, a.entries, 0);
    let m2 = missing_in(a.entries, b.entries, 0);
    let s = diff_shared(a.entries, b.entries, 0);
    (m1 + s.0, m2 + s.1, s.2)
}

/// Under sibling uniqueness, the entry found at any index is the entry
/// `lookup_rel` denotes for its key.
pub proof fn lemma_lookup_at(s: Seq<NodeV>, j: int)
    requires
        0 <= j < s.len(),
        forall|x: int, y: int|
            0 <= x < y < s.len() ==> #[trigger] s[x].strip_path != #[trigger] s[y].strip_path,
    ensures
        has_rel(s, s[j].strip_path),
        lookup_rel(s, s[j].strip_path) == s[j],
{
    assert(has_rel(s, s[j].strip_path));
    let i = rel_index(s, s[j].strip_path);
    if i != j {
        assert(s[i].strip_path != s[j].strip_path);
    }
}

/// Identity invariant: the differ treats two entries with equal relative
/// path as the same node for set-difference purposes, whatever their size
/// or modification time — presence on a side is a function of the relative
/// path alone.
pub proof fn lemma_identity_invariant(s: Seq<NodeV>, e1: NodeV, e2: NodeV)
    requires
        e1.strip_path == e2.strip_path,
    ensures
        has_rel(s, e1.strip_path) == has_rel(s, e2.strip_path),
{
}

/// A key occurs in a concatenation exactly when it occurs in one of the
/// halves.
pub proof fn lemma_has_rel_concat(a: Seq<NodeV>, b: Seq<NodeV>, rel: Seq<char>)
    ensures
        has_rel(a + b, rel) == (has_rel(a, rel) || has_rel(b, rel)),
{
    if has_rel(a, rel) {
        let i = choose|i: int| 0 <= i < a.len() && #[trigger] a[i].strip_path == rel;
        assert((a + b)[i] == a[i]);
        assert(has_rel(a + b, rel));
    }
    if has_rel(b, rel) {
        let i = choose|i: int| 0 <= i < b.len() && #[trigger] b[i].strip_path == rel;
        assert((a + b)[a.len() + i] == b[i]);
        assert(has_rel(a + b, rel));
    }
    if has_rel(a + b, rel) {
        let i = choose|i: int| 0 <= i < (a + b).len() && #[trigger] (a + b)[i].strip_path == rel;
        if i < a.len() {
            assert((a + b)[i] == a[i]);
            assert(has_rel(a, rel));
        } else {
            assert((a + b)[i] == b[i - a.len()]);
            assert(has_rel(b, rel));
        }
    }
}

/// Membership in the differ's only-on-one-side output is characterized by
/// relative path alone: a key is there exactly when one side carries it and
/// the other does not.
pub proof fn lemma_only_in_by_rel_path(src: Seq<NodeV>, other: Seq<NodeV>, rel: Seq<char>)
    ensures
        has_rel(missing_in(src, other, 0), rel) == (has_rel(src, rel) && !has_rel(other, rel)),
{
    lemma_missing_in_rel(src, other, 0, rel);
    if has_rel(src, rel) && !has_rel(other, rel) {
        let i = choose|i: int| 0 <= i < src.len() && #[trigger] src[i].strip_path == rel;
        assert(0 <= i < src.len() && src[i].strip_path == rel);
    }
}

proof fn lemma_missing_in_rel(src: Seq<NodeV>, other: Seq<NodeV>, i: int, rel: Seq<char>)
    requires
        0 <= i,
    ensures
        has_rel(missing_in(src, other, i), rel) == ((exists|k: int|
            i <= k < src.len() && #[trigger] src[k].strip_path == rel) && !has_rel(other, rel)),
    decreases src.len() - i,
{
    if i < src.len() {
        lemma_missing_in_rel(src, other, i + 1, rel);
        let m = missing_in(src, other, i);
        let restm = missing_in(src, other, i + 1);
        let head: Seq<NodeV> = if !has_rel(other, src[i].strip_path) {
            seq![src[i]]
        } else {
            Seq::empty()
        };
        assert(m == head + restm);
        lemma_has_rel_concat(head, restm, rel);
        if !has_rel(other, src[i].strip_path) {
            assert(head[0] == src[i]);
            assert(has_rel(head, rel) == (src[i].strip_path == rel));
        } else {
            assert(!has_rel(head, rel));
        }
        if has_rel(m, rel) {
            if has_rel(head, rel) {
                assert(src[i].strip_path == rel);
                assert(!has_rel(other, rel));
            }
        }
        if (exists|k: int| i <= k < src.len() && #[trigger] src[k].strip_path == rel) && !has_rel(
            other,
            rel,
        ) {
            let k = choose|k: int| i <= k < src.len() && #[trigger] src[k].strip_path == rel;
            if k == i {
                assert(has_rel(head, rel));
            } else {
                assert(k >= i + 1 && src[k].strip_path == rel);
            }
        }
    }
}

/// A vertex's abstract entries are the abstraction of its entry vector.
pub proof fn lemma_node_view_entries(n: Node)
    ensures
        node_view(n).entries == seq_view(n.entries@),
{
    assert(node_view(n).entries =~= seq_view(n.entries@));
}

proof fn lemma_seq_view_push(s: Seq<Node>, x: Node)
    ensures
        seq_view(s.push(x)) == seq_view(s).push(node_view(x)),
{
    assert(seq_view(s.push(x)) =~= seq_view(s).push(node_view(x)));
}

proof fn lemma_seq_view_concat(a: Seq<Node>, b: Seq<Node>)
    ensures
        seq_view(a + b) == seq_view(a) + seq_view(b),
{
    assert(seq_view(a + b) =~= seq_view(a) + seq_view(b));
}

proof fn lemma_pairs_view_push(s: Seq<(SyncFile, SyncFile)>, x: (SyncFile, SyncFile))
    ensures
        pairs_view(s.push(x)) == pairs_view(s).push((x.0@, x.1@)),
{
    assert(pairs_view(s.push(x)) =~= pairs_view(s).push((x.0@, x.1@)));
}

proof fn lemma_pairs_view_concat(a: Seq<(SyncFile, SyncFile)>, b: Seq<(SyncFile, SyncFile)>)
    ensures
        pairs_view(a + b) == pairs_view(a) + pairs_view(b),
{
    assert(pairs_view(a + b) =~= pairs_view(a) + pairs_view(b));
}

/// Append to `dst` the entries of `src` whose identity key is absent from
/// `other`, in order.
fn push_missing(dst: &mut Vec<Node>, src: &Vec<Node>, other: &Vec<Node>)
    ensures
        seq_view(final(dst)@) == seq_view(old(dst)@) + missing_in(
            seq_view(src@),
            seq_view(other@),
            0,
        ),
{
    let ghost sv = seq_view(src@);
    let ghost ov = seq_view(other@);
    let ghost dv0 = seq_view(dst@);
    let mut i: usize = 0;
    while i < src.len()
        invariant
            0 <= i <= src@.len(),
            sv == seq_view(src@),
            ov == seq_view(other@),
            dv0 == seq_view(old(dst)@),
            sv.len() == src@.len(),
            seq_view(dst@) + missing_in(sv, ov, i as int) == dv0 + missing_in(sv, ov, 0),
        decreases src@.len() - i,
    {
        let ghost dvc = seq_view(dst@);
        let ghost rel = sv[i as int].strip_path;
        proof {
            assert(sv[i as int] == node_view(src@[i as int]));
            assert(rel == src@[i as int].strip_path@);
        }
        match find_entry(other, src[i].strip_path.as_str()) {
            Some(j) => {
                proof {
                    assert(ov[j as int] == node_view(other@[j as int]));
                    assert(ov[j as int].strip_path == rel);
                    assert(has_rel(ov, rel));
                    assert(missing_in(sv, ov, i as int) == missing_in(sv, ov, i as int + 1));
                }
            },
            None => {
                proof {
                    if has_rel(ov, rel) {
                        let k = choose|k: int|
                            0 <= k < ov.len() && #[trigger] ov[k].strip_path == rel;
                        assert(ov[k] == node_view(other@[k]));
                        assert(other@[k].strip_path@ == rel);
                        assert(false);
                    }
                    assert(missing_in(sv, ov, i as int) == seq![sv[i as int]] + missing_in(
                        sv,
                        ov,
                        i as int + 1,
                    ));
                }
                let ghost pv = dst@;
                let d = src[i].duplicate();
                dst.push(d);
                proof {
                    lemma_seq_view_push(pv, d);
                    assert(node_view(d) == sv[i as int]);
                    assert(seq_view(dst@) == dvc.push(sv[i as int]));
                    assert(dvc.push(sv[i as int]) + missing_in(sv, ov, i as int + 1) =~= dvc + (
                    seq![sv[i as int]] + missing_in(sv, ov, i as int + 1)));
                }
            },
        }
        i = i + 1;
    }
    proof {
        assert(seq_view(dst@) + missing_in(sv, ov, src@.len() as int) =~= seq_view(dst@));
    }
}

/// Structurally compare two trees by relative-path identity.
///
/// Returns the entries under `root2` absent from `root1` (a one-sided
/// subtree as a single vertex), the entries under `root1` absent from
/// `root2`, and the shared pairs `(entry in root1, entry in root2)`
/// recorded for staleness comparison. Shared directories are descended
/// into, never paired; shared entries of differing kinds are paired so
/// the divergence is surfaced rather than dropped.
pub fn diff_trees(root1: &Node, root2: &Node) -> (r: (Vec<Node>, Vec<Node>, Vec<
    (SyncFile, SyncFile),
>))
    requires
        root1@.wf(),
        root2@.wf(),
    ensures
        seq_view(r.0@) == diff_spec(root1@, root2@).0,
        seq_view(r.1@) == diff_spec(root1@, root2@).1,
        pairs_view(r.2@) == diff_spec(root1@, root2@).2,
    decreases *root2,
{
    let ghost av = root1@;
    let ghost bv = root2@;
    let mut out1: Vec<Node> = Vec::new();
    let mut out2: Vec<Node> = Vec::new();
    let mut pairs: Vec<(SyncFile, SyncFile)> = Vec::new();
    proof {
        lemma_node_view_entries(*root1);
        lemma_node_view_entries(*root2);
        assert(seq_view(Seq::<Node>::empty()) =~= Seq::<NodeV>::empty());
    }
    push_missing(&mut out1, &root2.entries, &root1.entries);
    push_missing(&mut out2, &root1.entries, &root2.entries);
    proof {
        assert(Seq::<NodeV>::empty() + missing_in(bv.entries, av.entries, 0) =~= missing_in(
            bv.entries,
            av.entries,
            0,
        ));
        assert(Seq::<NodeV>::empty() + missing_in(av.entries, bv.entries, 0) =~= missing_in(
            av.entries,
            bv.entries,
            0,
        ));
        assert(pairs_view(pairs@) =~= Seq::<(SyncFileV, SyncFileV)>::empty());
        assert(diff_shared(av.entries, bv.entries, 0).2 + Seq::<(SyncFileV, SyncFileV)>::empty()
            =~= diff_shared(av.entries, bv.entries, 0).2);
    }
    let mut i: usize = 0;
    while i < root2.entries.len()
        invariant
            0 <= i <= root2.entries@.len(),
            av == root1@,
            bv == root2@,
            av.wf(),
            bv.wf(),
            av.entries == seq_view(root1.entries@),
            bv.entries == seq_view(root2.entries@),
            bv.entries.len() == root2.entries@.len(),
            seq_view(out1@) + diff_shared(av.entries, bv.entries, i as int).0 == missing_in(
                bv.entries,
                av.entries,
                0,
            ) + diff_shared(av.entries, bv.entries, 0).0,
            seq_view(out2@) + diff_shared(av.entries, bv.entries, i as int).1 == missing_in(
                av.entries,
                bv.entries,
                0,
            ) + diff_shared(av.entries, bv.entries, 0).1,
            pairs_view(pairs@) + diff_shared(av.entries, bv.entries, i as int).2 == diff_shared(
                av.entries,
                bv.entries,
                0,
            ).2,
        decreases root2.entries@.len() - i,
    {
        let ghost rel = bv.entries[i as int].strip_path;
        proof {
            assert(bv.entries[i as int] == node_view(root2.entries@[i as int]));
        }
        match find_entry(&root1.entries, root2.entries[i].strip_path.as_str()) {
            None => {
                proof {
                    if has_rel(av.entries, rel) {
                        let k = choose|k: int|
                            0 <= k < av.entries.len() && #[trigger] av.entries[k].strip_path
                                == rel;
                        assert(av.entries[k] == node_view(root1.entries@[k]));
                        assert(root1.entries@[k].strip_path@ == rel);
                        assert(false);
                    }
                }
            },
            Some(j) => {
                proof {
                    assert(av.entries[j as int] == node_view(root1.entries@[j as int]));
                    assert(av.entries[j as int].strip_path == rel);
                    lemma_lookup_at(av.entries, j as int);
                    assert(has_rel(av.entries, rel));
                    assert(lookup_rel(av.entries, rel) == av.entries[j as int]);
                    assert(av.entries[j as int].wf_child_of(av.strip_path));
                    assert(bv.entries[i as int].wf_child_of(bv.strip_path));
                }
                let e1 = &root1.entries[j];
                let e2 = &root2.entries[i];
                proof {
                    assert(e1@ == av.entries[j as int]);
                    assert(e2@ == bv.entries[i as int]);
                }
                if e1.sf.mode == FileMode::Dir && e2.sf.mode == FileMode::Dir {
                    let mut sub = diff_trees(e1, e2);
                    let ghost s0 = sub.0@;
                    let ghost s1 = sub.1@;
                    let ghost s2 = sub.2@;
                    let ghost o1 = out1@;
                    let ghost o2 = out2@;
                    let ghost pp = pairs@;
                    out1.append(&mut sub.0);
                    out2.append(&mut sub.1);
                    pairs.append(&mut sub.2);
                    proof {
                        lemma_seq_view_concat(o1, s0);
                        lemma_seq_view_concat(o2, s1);
                        lemma_pairs_view_concat(pp, s2);
                        let ds_i = diff_shared(av.entries, bv.entries, i as int);
                        let ds_n = diff_shared(av.entries, bv.entries, i as int + 1);
                        let sub_s = diff_spec(e1@, e2@);
                        assert(ds_i.0 == sub_s.0 + ds_n.0);
                        assert(ds_i.1 == sub_s.1 + ds_n.1);
                        assert(ds_i.2 == sub_s.2 + ds_n.2);
                        assert((seq_view(o1) + (sub_s.0 + ds_n.0)) =~= ((seq_view(o1) + sub_s.0)
                            + ds_n.0));
                        assert((seq_view(o2) + (sub_s.1 + ds_n.1)) =~= ((seq_view(o2) + sub_s.1)
                            + ds_n.1));
                        assert((pairs_view(pp) + (sub_s.2 + ds_n.2)) =~= ((pairs_view(pp)
                            + sub_s.2) + ds_n.2));
                    }
                } else {
                    let p = (e1.sf.duplicate(), e2.sf.duplicate());
                    let ghost pp = pairs@;
                    pairs.push(p);
                    proof {
                        lemma_pairs_view_push(pp, p);
                        let ds_i = diff_shared(av.entries, bv.entries, i as int);
                        let ds_n = diff_shared(av.entries, bv.entries, i as int + 1);
                        assert(ds_i.0 == ds_n.0);
                        assert(ds_i.1 == ds_n.1);
                        assert(ds_i.2 == seq![
                            (av.entries[j as int].sf, bv.entries[i as int].sf),
                        ] + ds_n.2);
                        assert(p.0@ == av.entries[j as int].sf);
                        assert(p.1@ == bv.entries[i as int].sf);
                        assert((pairs_view(pp) + (seq![(p.0@, p.1@)] + ds_n.2)) =~= (pairs_view(
                            pp,
                        ).push((p.0@, p.1@)) + ds_n.2));
                    }
                }
            },
        }
        i = i + 1;
    }
    proof {
        let ds_end = diff_shared(av.entries, bv.entries, bv.entries.len() as int);
        assert(ds_end.0 == Seq::<NodeV>::empty());
        assert(seq_view(out1@) + ds_end.0 =~= seq_view(out1@));
        assert(seq_view(out2@) + ds_end.1 =~= seq_view(out2@));
        assert(pairs_view(pairs@) + ds_end.2 =~= pairs_view(pairs@));
    }
    (out1, out2, pairs)
}

/// Index of the entry with identity key `rel`, by key equality alone.
pub fn find_entry(entries: &Vec<Node>, rel: &str) -> (r: Option<usize>)
    ensures
        match r {
            Some(i) => i < entries@.len() && entries@[i as int].strip_path@ == rel@,
            None => forall|k: int|
                0 <= k < entries@.len() ==> #[trigger] entries@[k].strip_path@ != rel@,
        },
{
    let mut i: usize = 0;
    while i < entries.len()
        invariant
            0 <= i <= entries@.len(),
            forall|k: int| 0 <= k < i ==> #[trigger] entries@[k].strip_path@ != rel@,
        decreases entries@.len() - i,
    {
        if str_eq(entries[i].strip_path.as_str(), rel) {
            return Some(i);
        }
        i = i + 1;
    }
    None
}

} // verus!
