//! Laws of the reconciler, proved over the plan it derives.

use crate::entry::FileMode;
use crate::plan::{
    copies_entries, copies_plan, create_plan, create_plan_entries, delete_plan,
    delete_plan_entries, deletes_entries, deletes_plan, ignored, pair_plan, plan_spec, ActionV,
    Reason, SyncOptionsV,
};
use crate::tree::{has_rel, lemma_lookup_at, lookup_rel, NodeV};
use vstd::prelude::*;

verus! {

/// No action of `p` is a deletion.
pub open spec fn no_deletions(p: Seq<ActionV>) -> bool {
    forall|k: int| 0 <= k < p.len() ==> !(#[trigger] p[k]).is_deletion()
}

/// No action of `p` touches an ignored relative path.
pub open spec fn no_ignored_rel(p: Seq<ActionV>, opts: SyncOptionsV) -> bool {
    forall|k: int| 0 <= k < p.len() ==> !ignored((#[trigger] p[k]).rel(), opts)
}

/// Every action of `p` is a skip.
pub open spec fn all_skips(p: Seq<ActionV>) -> bool {
    forall|k: int| 0 <= k < p.len() ==> (#[trigger] p[k]) is Skip
}

proof fn lemma_no_deletions_concat(a: Seq<ActionV>, b: Seq<ActionV>)
    requires
        no_deletions(a),
        no_deletions(b),
    ensures
        no_deletions(a + b),
{
    assert forall|k: int| 0 <= k < (a + b).len() implies !(#[trigger] (a + b)[k]).is_deletion() by {
        if k < a.len() {
            assert((a + b)[k] == a[k]);
        } else {
            assert((a + b)[k] == b[k - a.len()]);
        }
    }
}

proof fn lemma_no_ignored_concat(a: Seq<ActionV>, b: Seq<ActionV>, opts: SyncOptionsV)
    requires
        no_ignored_rel(a, opts),
        no_ignored_rel(b, opts),
    ensures
        no_ignored_rel(a + b, opts),
{
    assert forall|k: int| 0 <= k < (a + b).len() implies !ignored(
        (#[trigger] (a + b)[k]).rel(),
        opts,
    ) by {
        if k < a.len() {
            assert((a + b)[k] == a[k]);
        } else {
            assert((a + b)[k] == b[k - a.len()]);
        }
    }
}

proof fn lemma_all_skips_concat(a: Seq<ActionV>, b: Seq<ActionV>)
    requires
        all_skips(a),
        all_skips(b),
    ensures
        all_skips(a + b),
{
    assert forall|k: int| 0 <= k < (a + b).len() implies (#[trigger] (a + b)[k]) is Skip by {
        if k < a.len() {
            assert((a + b)[k] == a[k]);
        } else {
            assert((a + b)[k] == b[k - a.len()]);
        }
    }
}

proof fn lemma_create_plan_benign(n: NodeV, opts: SyncOptionsV)
    ensures
        no_deletions(create_plan(n, opts).0),
        no_ignored_rel(create_plan(n, opts).0, opts),
    decreases n, 0int,
{
    if !ignored(n.strip_path, opts) && n.sf.mode == FileMode::Dir {
        lemma_create_plan_entries_benign(n.entries, opts, 0);
        let head = seq![ActionV::CreateDirectory { rel: n.strip_path }];
        lemma_no_deletions_concat(head, create_plan_entries(n.entries, 0, opts).0);
        lemma_no_ignored_concat(head, create_plan_entries(n.entries, 0, opts).0, opts);
    }
}

proof fn lemma_create_plan_entries_benign(es: Seq<NodeV>, opts: SyncOptionsV, j: int)
    ensures
        no_deletions(create_plan_entries(es, j, opts).0),
        no_ignored_rel(create_plan_entries(es, j, opts).0, opts),
    decreases es, es.len() - j,
{
    if 0 <= j < es.len() {
        lemma_create_plan_benign(es[j], opts);
        lemma_create_plan_entries_benign(es, opts, j + 1);
        lemma_no_deletions_concat(
            create_plan(es[j], opts).0,
            create_plan_entries(es, j + 1, opts).0,
        );
        lemma_no_ignored_concat(
            create_plan(es[j], opts).0,
            create_plan_entries(es, j + 1, opts).0,
            opts,
        );
    }
}

proof fn lemma_copies_benign(dest: NodeV, src: NodeV, opts: SyncOptionsV, j: int)
    ensures
        no_deletions(copies_entries(dest.entries, src.entries, j, opts).0),
        no_ignored_rel(copies_entries(dest.entries, src.entries, j, opts).0, opts),
    decreases src, src.entries.len() - j,
{
    let de = dest.entries;
    let se = src.entries;
    if 0 <= j < se.len() {
        lemma_copies_benign(dest, src, opts, j + 1);
        let e = se[j];
        let rest = copies_entries(de, se, j + 1, opts);
        let h: Seq<ActionV> = if ignored(e.strip_path, opts) {
            Seq::<ActionV>::empty()
        } else if !has_rel(de, e.strip_path) {
            lemma_create_plan_benign(e, opts);
            create_plan(e, opts).0
        } else {
            let d = lookup_rel(de, e.strip_path);
            if d.sf.mode == FileMode::Dir && e.sf.mode == FileMode::Dir {
                lemma_copies_benign(d, e, opts, 0);
                copies_plan(d, e, opts).0
            } else {
                pair_plan(d.sf, e.sf, e.strip_path, opts).0
            }
        };
        assert(no_deletions(h));
        assert(no_ignored_rel(h, opts));
        lemma_no_deletions_concat(h, rest.0);
        lemma_no_ignored_concat(h, rest.0, opts);
        assert(copies_entries(de, se, j, opts).0 == h + rest.0);
    }
}

proof fn lemma_delete_plan_not_ignored(n: NodeV, opts: SyncOptionsV)
    ensures
        no_ignored_rel(delete_plan(n, opts), opts),
    decreases n, 0int,
{
    if !ignored(n.strip_path, opts) && n.sf.mode == FileMode::Dir {
        lemma_delete_plan_entries_not_ignored(n.entries, opts, 0);
        let sub = delete_plan_entries(n.entries, 0, opts);
        let tail: Seq<ActionV> = if crate::plan::subtree_deletable(n, opts) {
            seq![ActionV::DeleteDirectory { rel: n.strip_path }]
        } else {
            Seq::<ActionV>::empty()
        };
        assert(no_ignored_rel(tail, opts));
        lemma_no_ignored_concat(sub, tail, opts);
    }
}

proof fn lemma_delete_plan_entries_not_ignored(es: Seq<NodeV>, opts: SyncOptionsV, j: int)
    ensures
        no_ignored_rel(delete_plan_entries(es, j, opts), opts),
    decreases es, es.len() - j,
{
    if 0 <= j < es.len() {
        lemma_delete_plan_not_ignored(es[j], opts);
        lemma_delete_plan_entries_not_ignored(es, opts, j + 1);
        lemma_no_ignored_concat(
            delete_plan(es[j], opts),
            delete_plan_entries(es, j + 1, opts),
            opts,
        );
    }
}

proof fn lemma_deletes_shape(dest: NodeV, src: NodeV, opts: SyncOptionsV, j: int)
    ensures
        no_ignored_rel(deletes_entries(dest.entries, src.entries, j, opts), opts),
        !opts.mirror_deletions ==> all_skips(deletes_entries(dest.entries, src.entries, j, opts)),
    decreases dest, dest.entries.len() - j,
{
    let de = dest.entries;
    let se = src.entries;
    if 0 <= j < de.len() {
        lemma_deletes_shape(dest, src, opts, j + 1);
        let e = de[j];
        let rest = deletes_entries(de, se, j + 1, opts);
        let h: Seq<ActionV> = if ignored(e.strip_path, opts) {
            Seq::<ActionV>::empty()
        } else if !has_rel(se, e.strip_path) {
            if opts.mirror_deletions {
                lemma_delete_plan_not_ignored(e, opts);
                delete_plan(e, opts)
            } else {
                seq![ActionV::Skip { rel: e.strip_path, reason: Reason::RemovedFromSource }]
            }
        } else {
            let s = lookup_rel(se, e.strip_path);
            if s.sf.mode == FileMode::Dir && e.sf.mode == FileMode::Dir {
                lemma_deletes_shape(e, s, opts, 0);
                deletes_plan(e, s, opts)
            } else {
                Seq::<ActionV>::empty()
            }
        };
        assert(no_ignored_rel(h, opts));
        lemma_no_ignored_concat(h, rest, opts);
        if !opts.mirror_deletions {
            assert(all_skips(h));
            lemma_all_skips_concat(h, rest);
        }
        assert(deletes_entries(de, se, j, opts) == h + rest);
    }
}

/// Deletion safety: without the mirror-deletions policy, no deletion of
/// any kind is ever part of the plan, regardless of how the two trees
/// diverge.
pub proof fn lemma_deletion_safety(dest: NodeV, src: NodeV, opts: SyncOptionsV)
    requires
        !opts.mirror_deletions,
    ensures
        no_deletions(plan_spec(dest, src, opts)),
{
    lemma_copies_benign(dest, src, opts, 0);
    lemma_deletes_shape(dest, src, opts, 0);
    let c = copies_plan(dest, src, opts).0;
    let d = deletes_plan(dest, src, opts);
    assert(no_deletions(d)) by {
        assert forall|k: int| 0 <= k < d.len() implies !(#[trigger] d[k]).is_deletion() by {
            assert(d[k] is Skip);
        }
    }
    lemma_no_deletions_concat(c, d);
}

/// Ignore containment: no action of the plan — not even a skip marker —
/// touches a relative path that starts with an ignored prefix. An entry
/// beneath an ignored entry carries the same prefix, so nothing beneath
/// one is touched either.
pub proof fn lemma_ignore_containment(dest: NodeV, src: NodeV, opts: SyncOptionsV)
    ensures
        no_ignored_rel(plan_spec(dest, src, opts), opts),
{
    lemma_copies_benign(dest, src, opts, 0);
    lemma_deletes_shape(dest, src, opts, 0);
    lemma_no_ignored_concat(
        copies_plan(dest, src, opts).0,
        deletes_plan(dest, src, opts),
        opts,
    );
}

proof fn lemma_create_no_warns(n: NodeV, opts: SyncOptionsV)
    requires
        !opts.reject_trailing_dot,
    ensures
        create_plan(n, opts).1 == Seq::<Seq<char>>::empty(),
    decreases n, 0int,
{
    if !ignored(n.strip_path, opts) && n.sf.mode == FileMode::Dir {
        lemma_create_entries_no_warns(n.entries, opts, 0);
    }
}

proof fn lemma_create_entries_no_warns(es: Seq<NodeV>, opts: SyncOptionsV, j: int)
    requires
        !opts.reject_trailing_dot,
    ensures
        create_plan_entries(es, j, opts).1 == Seq::<Seq<char>>::empty(),
    decreases es, es.len() - j,
{
    if 0 <= j < es.len() {
        lemma_create_no_warns(es[j], opts);
        lemma_create_entries_no_warns(es, opts, j + 1);
        assert(create_plan_entries(es, j, opts).1 =~= Seq::<Seq<char>>::empty());
    } else {
    }
}

proof fn lemma_copies_no_warns(dest: NodeV, src: NodeV, opts: SyncOptionsV, j: int)
    requires
        !opts.reject_trailing_dot,
    ensures
        copies_entries(dest.entries, src.entries, j, opts).1 == Seq::<Seq<char>>::empty(),
    decreases src, src.entries.len() - j,
{
    let de = dest.entries;
    let se = src.entries;
    if 0 <= j < se.len() {
        lemma_copies_no_warns(dest, src, opts, j + 1);
        let e = se[j];
        let rest = copies_entries(de, se, j + 1, opts);
        let h: Seq<Seq<char>> = if ignored(e.strip_path, opts) {
            Seq::<Seq<char>>::empty()
        } else if !has_rel(de, e.strip_path) {
            lemma_create_no_warns(e, opts);
            create_plan(e, opts).1
        } else {
            let d = lookup_rel(de, e.strip_path);
            if d.sf.mode == FileMode::Dir && e.sf.mode == FileMode::Dir {
                lemma_copies_no_warns(d, e, opts, 0);
                copies_plan(d, e, opts).1
            } else {
                pair_plan(d.sf, e.sf, e.strip_path, opts).1
            }
        };
        assert(h == Seq::<Seq<char>>::empty());
        assert(copies_entries(de, se, j, opts).1 == h + rest.1);
        assert(h + rest.1 =~= Seq::<Seq<char>>::empty());
    }
}

/// Platform caveat containment: warnings exist only under the policy for
/// a destination platform that cannot represent names ending in a dot;
/// without that policy a pass warns about nothing.
pub proof fn lemma_no_warnings_without_dot_policy(dest: NodeV, src: NodeV, opts: SyncOptionsV)
    requires
        !opts.reject_trailing_dot,
    ensures
        crate::plan::warns_spec(dest, src, opts) == Seq::<Seq<char>>::empty(),
{
    lemma_copies_no_warns(dest, src, opts, 0);
}

/// The destination mirrors the source below one shared pair: every
/// non-ignored source entry has a destination counterpart of the same
/// kind that is not stale, and every non-ignored destination entry has a
/// source counterpart. This is the state a successful mirror run leaves
/// behind when nothing changes externally.
pub open spec fn converged(dest: NodeV, src: NodeV, opts: SyncOptionsV) -> bool
    decreases src, 0int,
{
    &&& (forall|i: int|
        0 <= i < src.entries.len() ==> converged_entry(
            dest.entries,
            #[trigger] src.entries[i],
            opts,
        ))
    &&& (forall|i: int|
        0 <= i < dest.entries.len() ==> (!ignored((#[trigger] dest.entries[i]).strip_path, opts)
            ==> has_rel(src.entries, dest.entries[i].strip_path)))
}

/// The per-entry part of `converged`.
pub open spec fn converged_entry(de: Seq<NodeV>, e: NodeV, opts: SyncOptionsV) -> bool
    decreases e, 1int,
{
    !ignored(e.strip_path, opts) ==> {
        let d = lookup_rel(de, e.strip_path);
        &&& has_rel(de, e.strip_path)
        &&& d.sf.mode == e.sf.mode
        &&& (e.sf.mode == FileMode::File ==> d.sf.size == e.sf.size && d.sf.timestamp
            >= e.sf.timestamp)
        &&& (e.sf.mode == FileMode::Dir ==> converged(d, e, opts))
    }
}

proof fn lemma_copies_skip_from(dest: NodeV, src: NodeV, opts: SyncOptionsV, j: int)
    requires
        src.wf(),
        converged(dest, src, opts),
    ensures
        all_skips(copies_entries(dest.entries, src.entries, j, opts).0),
    decreases src, src.entries.len() - j,
{
    let de = dest.entries;
    let se = src.entries;
    if 0 <= j < se.len() {
        lemma_copies_skip_from(dest, src, opts, j + 1);
        let e = se[j];
        let rest = copies_entries(de, se, j + 1, opts);
        assert(e.wf_child_of(src.strip_path));
        assert(converged_entry(de, e, opts));
        let h: Seq<ActionV> = if ignored(e.strip_path, opts) {
            Seq::<ActionV>::empty()
        } else {
            let d = lookup_rel(de, e.strip_path);
            assert(has_rel(de, e.strip_path));
            if e.sf.mode == FileMode::Dir {
                assert(d.sf.mode == FileMode::Dir);
                assert(converged(d, e, opts));
                lemma_copies_skip_from(d, e, opts, 0);
                copies_plan(d, e, opts).0
            } else {
                assert(e.sf.mode == FileMode::File);
                pair_plan(d.sf, e.sf, e.strip_path, opts).0
            }
        };
        assert(all_skips(h));
        lemma_all_skips_concat(h, rest.0);
        assert(copies_entries(de, se, j, opts).0 == h + rest.0);
    }
}

proof fn lemma_deletes_empty_from(dest: NodeV, src: NodeV, opts: SyncOptionsV, j: int)
    requires
        0 <= j,
        dest.wf(),
        converged(dest, src, opts),
    ensures
        deletes_entries(dest.entries, src.entries, j, opts) == Seq::<ActionV>::empty(),
    decreases dest, dest.entries.len() - j,
{
    let de = dest.entries;
    let se = src.entries;
    if j < de.len() {
        lemma_deletes_empty_from(dest, src, opts, j + 1);
        let e = de[j];
        assert(e.wf_child_of(dest.strip_path));
        if !ignored(e.strip_path, opts) {
            assert(has_rel(se, e.strip_path));
            let s = lookup_rel(se, e.strip_path);
            let si = crate::tree::rel_index(se, e.strip_path);
            assert(se[si] == s && s.strip_path == e.strip_path);
            assert(converged_entry(de, s, opts));
            lemma_lookup_at(de, j);
            assert(lookup_rel(de, e.strip_path) == e);
            assert(s.sf.mode == e.sf.mode);
            if s.sf.mode == FileMode::Dir && e.sf.mode == FileMode::Dir {
                assert(converged(e, s, opts));
                lemma_deletes_empty_from(e, s, opts, 0);
                assert(deletes_plan(e, s, opts) =~= Seq::<ActionV>::empty());
            }
        }
        assert(deletes_entries(de, se, j, opts) =~= Seq::<ActionV>::empty());
    } else {
        assert(deletes_entries(de, se, j, opts) =~= Seq::<ActionV>::empty());
    }
}

/// A file with this relative path and size stands somewhere below `n`.
pub open spec fn tree_has_file(n: NodeV, rel: Seq<char>, size: u32) -> bool
    decreases n, 0int,
{
    exists|i: int|
        0 <= i < n.entries.len() && entry_leads_to(#[trigger] n.entries[i], rel, size)
}

/// The entry `e` is that file, or a directory holding it below.
pub open spec fn entry_leads_to(e: NodeV, rel: Seq<char>, size: u32) -> bool
    decreases e, 1int,
{
    ||| (e.sf.mode == FileMode::File && e.strip_path == rel && e.sf.size == size)
    ||| (e.sf.mode == FileMode::Dir && tree_has_file(e, rel, size))
}

/// `p` is `rel` itself, an ancestor key of it, or the root key.
pub open spec fn path_prefix_of(p: Seq<char>, rel: Seq<char>) -> bool {
    p == rel || (p + seq!['/']).is_prefix_of(rel) || p.len() == 0
}

/// The plan copies `rel`, or an ancestor of it (the latter only where an
/// ancestor directory pairs with a destination entry of another kind).
pub open spec fn plan_copies_at_or_above(p: Seq<ActionV>, rel: Seq<char>) -> bool {
    exists|k: int|
        0 <= k < p.len() && (#[trigger] p[k]) is CopyFile && path_prefix_of(p[k].rel(), rel)
}

/// A warning names `rel` or an ancestor of it.
pub open spec fn warned_at_or_above(w: Seq<Seq<char>>, rel: Seq<char>) -> bool {
    exists|k: int| 0 <= k < w.len() && path_prefix_of(#[trigger] w[k], rel)
}

proof fn lemma_prefix_trans(x: Seq<char>, y: Seq<char>, z: Seq<char>)
    requires
        x.is_prefix_of(y),
        y.is_prefix_of(z),
    ensures
        x.is_prefix_of(z),
{
    assert(z.subrange(0, x.len() as int) =~= y.subrange(0, x.len() as int));
}

proof fn lemma_path_prefix_trans(a: Seq<char>, b: Seq<char>, c: Seq<char>)
    requires
        path_prefix_of(a, b),
        path_prefix_of(b, c),
    ensures
        path_prefix_of(a, c),
{
    if a.len() == 0 || a == b {
    } else {
        assert((a + seq!['/']).is_prefix_of(b));
        if b == c {
        } else if b.len() == 0 {
            assert((a + seq!['/']).len() > 0);
        } else {
            assert((b + seq!['/']).is_prefix_of(c));
            assert(b.is_prefix_of(b + seq!['/'])) by {
                assert((b + seq!['/']).subrange(0, b.len() as int) =~= b);
            }
            lemma_prefix_trans(a + seq!['/'], b, b + seq!['/']);
            lemma_prefix_trans(a + seq!['/'], b + seq!['/'], c);
        }
    }
}

proof fn lemma_ignored_lift(p: Seq<char>, rel: Seq<char>, opts: SyncOptionsV)
    requires
        path_prefix_of(p, rel),
        ignored(p, opts),
    ensures
        ignored(rel, opts),
{
    let q = choose|i: int|
        0 <= i < opts.ignore_prefixes.len() && (#[trigger] opts.ignore_prefixes[i]).is_prefix_of(
            p,
        );
    let qp = opts.ignore_prefixes[q];
    if p == rel {
    } else if p.len() == 0 {
        assert(qp =~= Seq::<char>::empty());
        assert(qp.is_prefix_of(rel)) by {
            assert(rel.subrange(0, 0) =~= qp);
        }
    } else {
        assert(p.is_prefix_of(p + seq!['/'])) by {
            assert((p + seq!['/']).subrange(0, p.len() as int) =~= p);
        }
        lemma_prefix_trans(qp, p, p + seq!['/']);
        lemma_prefix_trans(qp, p + seq!['/'], rel);
    }
}

proof fn lemma_join_prefix(parent: Seq<char>, name: Seq<char>)
    ensures
        path_prefix_of(parent, crate::strutil::spec_rel_join(parent, name)),
{
    if parent.len() > 0 {
        let j = crate::strutil::spec_rel_join(parent, name);
        assert((parent + seq!['/']).is_prefix_of(j)) by {
            assert(j.subrange(0, parent.len() as int + 1) =~= parent + seq!['/']);
        }
    }
}

proof fn lemma_file_below_prefix(n: NodeV, rel: Seq<char>, size: u32)
    requires
        n.wf(),
        tree_has_file(n, rel, size),
    ensures
        path_prefix_of(n.strip_path, rel),
    decreases n,
{
    let i = choose|i: int|
        0 <= i < n.entries.len() && entry_leads_to(#[trigger] n.entries[i], rel, size);
    let c = n.entries[i];
    assert(c.wf_child_of(n.strip_path));
    lemma_join_prefix(n.strip_path, c.sf.name);
    if c.sf.mode == FileMode::File && c.strip_path == rel && c.sf.size == size {
        assert(path_prefix_of(n.strip_path, c.strip_path));
    } else {
        lemma_file_below_prefix(c, rel, size);
        lemma_path_prefix_trans(n.strip_path, c.strip_path, rel);
    }
}

proof fn lemma_copy_above_concat(a: Seq<ActionV>, b: Seq<ActionV>, rel: Seq<char>)
    requires
        plan_copies_at_or_above(a, rel) || plan_copies_at_or_above(b, rel),
    ensures
        plan_copies_at_or_above(a + b, rel),
{
    if plan_copies_at_or_above(a, rel) {
        let k = choose|k: int|
            0 <= k < a.len() && (#[trigger] a[k]) is CopyFile && path_prefix_of(a[k].rel(), rel);
        assert((a + b)[k] == a[k]);
    } else {
        let k = choose|k: int|
            0 <= k < b.len() && (#[trigger] b[k]) is CopyFile && path_prefix_of(b[k].rel(), rel);
        assert((a + b)[a.len() + k] == b[k]);
    }
}

proof fn lemma_warn_above_concat(a: Seq<Seq<char>>, b: Seq<Seq<char>>, rel: Seq<char>)
    requires
        warned_at_or_above(a, rel) || warned_at_or_above(b, rel),
    ensures
        warned_at_or_above(a + b, rel),
{
    if warned_at_or_above(a, rel) {
        let k = choose|k: int| 0 <= k < a.len() && path_prefix_of(#[trigger] a[k], rel);
        assert((a + b)[k] == a[k]);
    } else {
        let k = choose|k: int| 0 <= k < b.len() && path_prefix_of(#[trigger] b[k], rel);
        assert((a + b)[a.len() + k] == b[k]);
    }
}

proof fn lemma_create_complete(n: NodeV, opts: SyncOptionsV, rel: Seq<char>, size: u32)
    requires
        n.wf(),
        !ignored(rel, opts),
        !ignored(n.strip_path, opts),
        entry_leads_to(n, rel, size),
    ensures
        plan_copies_at_or_above(create_plan(n, opts).0, rel) || warned_at_or_above(
            create_plan(n, opts).1,
            rel,
        ),
    decreases n, 0int,
{
    if n.sf.mode == FileMode::File {
        assert(n.strip_path == rel);
        if crate::plan::dot_skipped(n.sf.name, opts) {
            assert(create_plan(n, opts).1[0] == rel);
        } else {
            assert(create_plan(n, opts).0[0] is CopyFile);
        }
    } else {
        assert(n.sf.mode == FileMode::Dir);
        let i = choose|i: int|
            0 <= i < n.entries.len() && entry_leads_to(#[trigger] n.entries[i], rel, size);
        let c = n.entries[i];
        assert(c.wf_child_of(n.strip_path));
        if c.sf.mode == FileMode::File && c.strip_path == rel && c.sf.size == size {
            assert(path_prefix_of(c.strip_path, rel));
        } else {
            lemma_file_below_prefix(c, rel, size);
        }
        assert(!ignored(c.strip_path, opts)) by {
            if ignored(c.strip_path, opts) {
                lemma_ignored_lift(c.strip_path, rel, opts);
            }
        }
        lemma_create_entries_complete(n.entries, opts, rel, size, 0, i);
        let sub = create_plan_entries(n.entries, 0, opts);
        let head = seq![ActionV::CreateDirectory { rel: n.strip_path }];
        if plan_copies_at_or_above(sub.0, rel) {
            lemma_copy_above_concat(head, sub.0, rel);
        }
    }
}

proof fn lemma_create_entries_complete(
    es: Seq<NodeV>,
    opts: SyncOptionsV,
    rel: Seq<char>,
    size: u32,
    j: int,
    i: int,
)
    requires
        0 <= j <= i < es.len(),
        es[i].wf(),
        !ignored(rel, opts),
        !ignored(es[i].strip_path, opts),
        entry_leads_to(es[i], rel, size),
    ensures
        plan_copies_at_or_above(create_plan_entries(es, j, opts).0, rel) || warned_at_or_above(
            create_plan_entries(es, j, opts).1,
            rel,
        ),
    decreases es, es.len() - j,
{
    let h = create_plan(es[j], opts);
    let rest = create_plan_entries(es, j + 1, opts);
    if i == j {
        lemma_create_complete(es[j], opts, rel, size);
        if plan_copies_at_or_above(h.0, rel) {
            lemma_copy_above_concat(h.0, rest.0, rel);
        } else {
            lemma_warn_above_concat(h.1, rest.1, rel);
        }
    } else {
        lemma_create_entries_complete(es, opts, rel, size, j + 1, i);
        if plan_copies_at_or_above(rest.0, rel) {
            lemma_copy_above_concat(h.0, rest.0, rel);
        } else {
            lemma_warn_above_concat(h.1, rest.1, rel);
        }
    }
}

proof fn lemma_complete_from(
    dest: NodeV,
    src: NodeV,
    opts: SyncOptionsV,
    rel: Seq<char>,
    size: u32,
    j: int,
)
    requires
        0 <= j,
        dest.wf(),
        src.wf(),
        !ignored(rel, opts),
        exists|i: int|
            j <= i < src.entries.len() && entry_leads_to(#[trigger] src.entries[i], rel, size),
    ensures
        plan_copies_at_or_above(copies_entries(dest.entries, src.entries, j, opts).0, rel)
            || tree_has_file(dest, rel, size) || warned_at_or_above(
            copies_entries(dest.entries, src.entries, j, opts).1,
            rel,
        ),
    decreases src, src.entries.len() - j,
{
    let de = dest.entries;
    let se = src.entries;
    let i = choose|i: int|
        j <= i < se.len() && entry_leads_to(#[trigger] se[i], rel, size);
    let e = se[j];
    assert(e.wf_child_of(src.strip_path));
    let rest = copies_entries(de, se, j + 1, opts);
    let h: (Seq<ActionV>, Seq<Seq<char>>) = if ignored(e.strip_path, opts) {
        (Seq::<ActionV>::empty(), Seq::<Seq<char>>::empty())
    } else if !has_rel(de, e.strip_path) {
        create_plan(e, opts)
    } else {
        let d = lookup_rel(de, e.strip_path);
        if d.sf.mode == FileMode::Dir && e.sf.mode == FileMode::Dir {
            copies_plan(d, e, opts)
        } else {
            pair_plan(d.sf, e.sf, e.strip_path, opts)
        }
    };
    assert(copies_entries(de, se, j, opts).0 == h.0 + rest.0);
    assert(copies_entries(de, se, j, opts).1 == h.1 + rest.1);
    if i > j {
        lemma_complete_from(dest, src, opts, rel, size, j + 1);
        if plan_copies_at_or_above(rest.0, rel) {
            lemma_copy_above_concat(h.0, rest.0, rel);
        } else if warned_at_or_above(rest.1, rel) {
            lemma_warn_above_concat(h.1, rest.1, rel);
        }
    } else {
        // the witness entry is the one at position j
        if e.sf.mode == FileMode::File && e.strip_path == rel && e.sf.size == size {
            assert(path_prefix_of(e.strip_path, rel));
        } else {
            lemma_file_below_prefix(e, rel, size);
        }
        assert(!ignored(e.strip_path, opts)) by {
            if ignored(e.strip_path, opts) {
                lemma_ignored_lift(e.strip_path, rel, opts);
            }
        }
        if !has_rel(de, e.strip_path) {
            lemma_create_complete(e, opts, rel, size);
            if plan_copies_at_or_above(h.0, rel) {
                lemma_copy_above_concat(h.0, rest.0, rel);
            } else {
                lemma_warn_above_concat(h.1, rest.1, rel);
            }
        } else {
            let d = lookup_rel(de, e.strip_path);
            let idx = crate::tree::rel_index(de, e.strip_path);
            assert(0 <= idx < de.len() && de[idx] == d && d.strip_path == e.strip_path);
            assert(d.wf_child_of(dest.strip_path));
            if d.sf.mode == FileMode::Dir && e.sf.mode == FileMode::Dir {
                assert(tree_has_file(e, rel, size));
                lemma_complete_from(d, e, opts, rel, size, 0);
                if plan_copies_at_or_above(copies_plan(d, e, opts).0, rel) {
                    lemma_copy_above_concat(h.0, rest.0, rel);
                } else if warned_at_or_above(copies_plan(d, e, opts).1, rel) {
                    lemma_warn_above_concat(h.1, rest.1, rel);
                } else {
                    assert(tree_has_file(d, rel, size));
                    assert(entry_leads_to(de[idx], rel, size));
                    assert(tree_has_file(dest, rel, size));
                }
            } else {
                let p = pair_plan(d.sf, e.sf, e.strip_path, opts);
                if d.sf.size != e.sf.size || d.sf.mode != e.sf.mode || e.sf.timestamp
                    > d.sf.timestamp {
                    if crate::plan::dot_skipped(e.sf.name, opts) {
                        assert(p.1[0] == e.strip_path);
                        assert(warned_at_or_above(p.1, rel));
                        lemma_warn_above_concat(h.1, rest.1, rel);
                    } else {
                        assert(p.0[0] is CopyFile && path_prefix_of(p.0[0].rel(), rel));
                        assert(plan_copies_at_or_above(p.0, rel));
                        lemma_copy_above_concat(h.0, rest.0, rel);
                    }
                } else {
                    // an unchanged pair: the destination already holds the file
                    assert(e.sf.mode == FileMode::File);
                    assert(d.sf.mode == FileMode::File && d.sf.size == size && d.strip_path
                        == rel);
                    assert(entry_leads_to(de[idx], rel, size));
                    assert(tree_has_file(dest, rel, size));
                }
            }
        }
    }
}

/// Mirror completeness: every file of the source tree whose relative
/// path is not ignored is accounted for by the plan — it (or, where an
/// ancestor directory pairs with a destination entry of another kind,
/// that ancestor) is copied, or the destination already holds a file of
/// equal size at its path, or its name was reported unrepresentable.
pub proof fn lemma_mirror_completeness(
    dest: NodeV,
    src: NodeV,
    opts: SyncOptionsV,
    rel: Seq<char>,
    size: u32,
)
    requires
        dest.wf(),
        src.wf(),
        tree_has_file(src, rel, size),
        !ignored(rel, opts),
    ensures
        plan_copies_at_or_above(plan_spec(dest, src, opts), rel) || tree_has_file(
            dest,
            rel,
            size,
        ) || warned_at_or_above(crate::plan::warns_spec(dest, src, opts), rel),
{
    lemma_complete_from(dest, src, opts, rel, size, 0);
    if plan_copies_at_or_above(copies_plan(dest, src, opts).0, rel) {
        lemma_copy_above_concat(
            copies_plan(dest, src, opts).0,
            deletes_plan(dest, src, opts),
            rel,
        );
    }
}

/// Idempotence: once the destination mirrors the source, a further pass
/// with the mirror-deletions policy derives nothing but skips — no copy,
/// no create, no deletion.
pub proof fn lemma_idempotence(dest: NodeV, src: NodeV, opts: SyncOptionsV)
    requires
        dest.wf(),
        src.wf(),
        opts.mirror_deletions,
        converged(dest, src, opts),
    ensures
        all_skips(plan_spec(dest, src, opts)),
{
    lemma_copies_skip_from(dest, src, opts, 0);
    lemma_deletes_empty_from(dest, src, opts, 0);
    lemma_all_skips_concat(copies_plan(dest, src, opts).0, deletes_plan(dest, src, opts));
}

} // verus!
