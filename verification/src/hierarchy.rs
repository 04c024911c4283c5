//! The subissue hierarchy and the cascading delete: removing an issue
//! removes its whole subtree, every label, comment, dependency edge, time
//! entry and milestone membership of the removed issues, and clears any
//! session reference to them — one conceptually atomic step on the store
//! value.

use vstd::prelude::*;
use crate::errors::StoreError;
use crate::model::{Comment, Dep, Issue, Label, MilestoneMember, Session, TimeEntry};
use crate::store::{
    has_issue_in, idx_of, issue_in, issues_sorted, lemma_sorted_index_unique, Store, StoreV,
};

verus! {

/// Whether the issue `id` lies in the subtree rooted at `root`: it is the
/// root itself, or its parent chain reaches the root. A parent always has
/// a smaller id than its child, which bounds the chain.
pub open spec fn in_subtree(s: Seq<Issue>, id: u64, root: u64) -> bool
    decreases id,
{
    if !has_issue_in(s, id) {
        false
    } else if id == root {
        true
    } else {
        match issue_in(s, id).parent_id {
            Some(p) => p < id && in_subtree(s, p, root),
            None => false,
        }
    }
}

/// The issues of `s` that survive deleting the subtree of `root` in `orig`.
pub open spec fn prune_issues(s: Seq<Issue>, orig: Seq<Issue>, root: u64) -> Seq<Issue>
    decreases s.len(),
{
    if s.len() == 0 {
        Seq::empty()
    } else {
        let rest = prune_issues(s.drop_last(), orig, root);
        if !in_subtree(orig, s.last().id, root) {
            rest.push(s.last())
        } else {
            rest
        }
    }
}

/// The label rows that survive the deletion.
pub open spec fn prune_labels(s: Seq<Label>, orig: Seq<Issue>, root: u64) -> Seq<Label>
    decreases s.len(),
{
    if s.len() == 0 {
        Seq::empty()
    } else {
        let rest = prune_labels(s.drop_last(), orig, root);
        if !in_subtree(orig, s.last().issue_id, root) {
            rest.push(s.last())
        } else {
            rest
        }
    }
}

/// The comments that survive the deletion.
pub open spec fn prune_comments(s: Seq<Comment>, orig: Seq<Issue>, root: u64) -> Seq<Comment>
    decreases s.len(),
{
    if s.len() == 0 {
        Seq::empty()
    } else {
        let rest = prune_comments(s.drop_last(), orig, root);
        if !in_subtree(orig, s.last().issue_id, root) {
            rest.push(s.last())
        } else {
            rest
        }
    }
}

/// The dependency edges that survive the deletion: both ends must survive.
pub open spec fn prune_deps(s: Seq<Dep>, orig: Seq<Issue>, root: u64) -> Seq<Dep>
    decreases s.len(),
{
    if s.len() == 0 {
        Seq::empty()
    } else {
        let rest = prune_deps(s.drop_last(), orig, root);
        if !in_subtree(orig, s.last().blocker_id, root) && !in_subtree(
            orig,
            s.last().blocked_id,
            root,
        ) {
            rest.push(s.last())
        } else {
            rest
        }
    }
}

/// The time entries that survive the deletion.
pub open spec fn prune_entries(s: Seq<TimeEntry>, orig: Seq<Issue>, root: u64) -> Seq<TimeEntry>
    decreases s.len(),
{
    if s.len() == 0 {
        Seq::empty()
    } else {
        let rest = prune_entries(s.drop_last(), orig, root);
        if !in_subtree(orig, s.last().issue_id, root) {
            rest.push(s.last())
        } else {
            rest
        }
    }
}

/// The milestone membership rows that survive the deletion.
pub open spec fn prune_members(
    s: Seq<MilestoneMember>,
    orig: Seq<Issue>,
    root: u64,
) -> Seq<MilestoneMember>
    decreases s.len(),
{
    if s.len() == 0 {
        Seq::empty()
    } else {
        let rest = prune_members(s.drop_last(), orig, root);
        if !in_subtree(orig, s.last().issue_id, root) {
            rest.push(s.last())
        } else {
            rest
        }
    }
}

/// One session after the deletion: a reference to a deleted issue becomes
/// null rather than dangling; everything else is untouched.
pub open spec fn scrub_session(ss: Session, orig: Seq<Issue>, root: u64) -> Session {
    match ss.active_issue_id {
        Some(a) => if in_subtree(orig, a, root) {
            Session { active_issue_id: None, ..ss }
        } else {
            ss
        },
        None => ss,
    }
}

/// The sessions after the deletion.
pub open spec fn scrub_sessions(s: Seq<Session>, orig: Seq<Issue>, root: u64) -> Seq<Session> {
    Seq::new(s.len(), |i: int| scrub_session(s[i], orig, root))
}

/// What `prune_issues` returns: exactly the rows outside the subtree, in
/// table order; on a sorted table the result stays sorted.
pub proof fn lemma_prune_issues_props(s: Seq<Issue>, orig: Seq<Issue>, root: u64)
    ensures
        forall|k: int|
            0 <= k < prune_issues(s, orig, root).len() ==> !in_subtree(
                orig,
                (#[trigger] prune_issues(s, orig, root)[k]).id,
                root,
            ) && exists|j: int| 0 <= j < s.len() && s[j] == prune_issues(s, orig, root)[k],
        forall|j: int|
            0 <= j < s.len() && !in_subtree(orig, (#[trigger] s[j]).id, root) ==> prune_issues(
                s,
                orig,
                root,
            ).contains(s[j]),
        issues_sorted(s) ==> (forall|k1: int, k2: int|
            0 <= k1 < k2 < prune_issues(s, orig, root).len() ==> prune_issues(s, orig, root)[k1].id
                < prune_issues(s, orig, root)[k2].id),
    decreases s.len(),
{
    let r = prune_issues(s, orig, root);
    if s.len() > 0 {
        let s0 = s.drop_last();
        lemma_prune_issues_props(s0, orig, root);
        let r0 = prune_issues(s0, orig, root);
        assert forall|k: int| 0 <= k < r.len() implies !in_subtree(
            orig,
            (#[trigger] r[k]).id,
            root,
        ) && exists|j: int| 0 <= j < s.len() && s[j] == r[k] by {
            if k < r0.len() {
                assert(r[k] == r0[k]);
                let j = choose|j: int| 0 <= j < s0.len() && s0[j] == r0[k];
                assert(s[j] == r[k]);
            } else {
                assert(s[s.len() - 1] == r[k]);
            }
        }
        assert forall|j: int|
            0 <= j < s.len() && !in_subtree(orig, (#[trigger] s[j]).id, root) implies r.contains(
            s[j],
        ) by {
            if j < s.len() - 1 {
                assert(s0[j] == s[j]);
                assert(r0.contains(s0[j]));
                let k = choose|k: int| 0 <= k < r0.len() && r0[k] == s0[j];
                assert(r[k] == s[j]);
            } else {
                assert(r[r.len() - 1] == s[j]);
            }
        }
        if issues_sorted(s) {
            assert(issues_sorted(s0));
            assert forall|k1: int, k2: int| 0 <= k1 < k2 < r.len() implies r[k1].id < r[k2].id by {
                if k2 < r0.len() {
                    assert(r[k1] == r0[k1] && r[k2] == r0[k2]);
                } else {
                    assert(r[k1] == r0[k1]);
                    let j = choose|j: int| 0 <= j < s0.len() && s0[j] == r0[k1];
                    assert(s[j].id < s[s.len() - 1].id);
                }
            }
        }
    }
}

/// What `prune_labels` returns: exactly the rows on surviving issues, in
/// table order, still pairwise distinct.
pub proof fn lemma_prune_labels_props(s: Seq<Label>, orig: Seq<Issue>, root: u64)
    ensures
        forall|k: int|
            0 <= k < prune_labels(s, orig, root).len() ==> !in_subtree(
                orig,
                (#[trigger] prune_labels(s, orig, root)[k]).issue_id,
                root,
            ) && exists|j: int| 0 <= j < s.len() && s[j] == prune_labels(s, orig, root)[k],
        forall|j: int|
            0 <= j < s.len() && !in_subtree(orig, (#[trigger] s[j]).issue_id, root)
                ==> prune_labels(s, orig, root).contains(s[j]),
        (forall|i: int, j: int|
            0 <= i < j < s.len() ==> !(s[i].issue_id == s[j].issue_id && s[i].name@ == s[j].name@))
            ==> (forall|k1: int, k2: int|
            0 <= k1 < k2 < prune_labels(s, orig, root).len() ==> !(prune_labels(
                s,
                orig,
                root,
            )[k1].issue_id == prune_labels(s, orig, root)[k2].issue_id && prune_labels(
                s,
                orig,
                root,
            )[k1].name@ == prune_labels(s, orig, root)[k2].name@)),
    decreases s.len(),
{
    let r = prune_labels(s, orig, root);
    if s.len() > 0 {
        let s0 = s.drop_last();
        lemma_prune_labels_props(s0, orig, root);
        let r0 = prune_labels(s0, orig, root);
        assert forall|k: int| 0 <= k < r.len() implies !in_subtree(
            orig,
            (#[trigger] r[k]).issue_id,
            root,
        ) && exists|j: int| 0 <= j < s.len() && s[j] == r[k] by {
            if k < r0.len() {
                assert(r[k] == r0[k]);
                let j = choose|j: int| 0 <= j < s0.len() && s0[j] == r0[k];
                assert(s[j] == r[k]);
            } else {
                assert(s[s.len() - 1] == r[k]);
            }
        }
        assert forall|j: int|
            0 <= j < s.len() && !in_subtree(orig, (#[trigger] s[j]).issue_id, root) implies r
            .contains(s[j]) by {
            if j < s.len() - 1 {
                assert(s0[j] == s[j]);
                assert(r0.contains(s0[j]));
                let k = choose|k: int| 0 <= k < r0.len() && r0[k] == s0[j];
                assert(r[k] == s[j]);
            } else {
                assert(r[r.len() - 1] == s[j]);
            }
        }
        if forall|i: int, j: int|
            0 <= i < j < s.len() ==> !(s[i].issue_id == s[j].issue_id && s[i].name@ == s[j].name@) {
            assert forall|i: int, j: int|
                0 <= i < j < s0.len() implies !(s0[i].issue_id == s0[j].issue_id && s0[i].name@
                == s0[j].name@) by {
                assert(s0[i] == s[i] && s0[j] == s[j]);
            }
            assert forall|k1: int, k2: int| 0 <= k1 < k2 < r.len() implies !(r[k1].issue_id
                == r[k2].issue_id && r[k1].name@ == r[k2].name@) by {
                if k2 < r0.len() {
                    assert(r[k1] == r0[k1] && r[k2] == r0[k2]);
                } else {
                    assert(r[k1] == r0[k1]);
                    let j = choose|j: int| 0 <= j < s0.len() && s0[j] == r0[k1];
                    assert(s[j] == r[k1] && s[s.len() - 1] == r[k2]);
                }
            }
        }
    }
}

/// What `prune_comments` returns: exactly the comments on surviving
/// issues, in table order, ids still ascending.
pub proof fn lemma_prune_comments_props(s: Seq<Comment>, orig: Seq<Issue>, root: u64)
    ensures
        forall|k: int|
            0 <= k < prune_comments(s, orig, root).len() ==> !in_subtree(
                orig,
                (#[trigger] prune_comments(s, orig, root)[k]).issue_id,
                root,
            ) && exists|j: int| 0 <= j < s.len() && s[j] == prune_comments(s, orig, root)[k],
        forall|j: int|
            0 <= j < s.len() && !in_subtree(orig, (#[trigger] s[j]).issue_id, root)
                ==> prune_comments(s, orig, root).contains(s[j]),
        (forall|i: int, j: int| 0 <= i < j < s.len() ==> s[i].id < s[j].id) ==> (forall|
            k1: int,
            k2: int,
        |
            0 <= k1 < k2 < prune_comments(s, orig, root).len() ==> prune_comments(
                s,
                orig,
                root,
            )[k1].id < prune_comments(s, orig, root)[k2].id),
    decreases s.len(),
{
    let r = prune_comments(s, orig, root);
    if s.len() > 0 {
        let s0 = s.drop_last();
        lemma_prune_comments_props(s0, orig, root);
        let r0 = prune_comments(s0, orig, root);
        assert forall|k: int| 0 <= k < r.len() implies !in_subtree(
            orig,
            (#[trigger] r[k]).issue_id,
            root,
        ) && exists|j: int| 0 <= j < s.len() && s[j] == r[k] by {
            if k < r0.len() {
                assert(r[k] == r0[k]);
                let j = choose|j: int| 0 <= j < s0.len() && s0[j] == r0[k];
                assert(s[j] == r[k]);
            } else {
                assert(s[s.len() - 1] == r[k]);
            }
        }
        assert forall|j: int|
            0 <= j < s.len() && !in_subtree(orig, (#[trigger] s[j]).issue_id, root) implies r
            .contains(s[j]) by {
            if j < s.len() - 1 {
                assert(s0[j] == s[j]);
                assert(r0.contains(s0[j]));
                let k = choose|k: int| 0 <= k < r0.len() && r0[k] == s0[j];
                assert(r[k] == s[j]);
            } else {
                assert(r[r.len() - 1] == s[j]);
            }
        }
        if forall|i: int, j: int| 0 <= i < j < s.len() ==> s[i].id < s[j].id {
            assert forall|i: int, j: int| 0 <= i < j < s0.len() implies s0[i].id < s0[j].id by {
                assert(s0[i] == s[i] && s0[j] == s[j]);
            }
            assert forall|k1: int, k2: int| 0 <= k1 < k2 < r.len() implies r[k1].id < r[k2].id by {
                if k2 < r0.len() {
                    assert(r[k1] == r0[k1] && r[k2] == r0[k2]);
                } else {
                    assert(r[k1] == r0[k1]);
                    let j = choose|j: int| 0 <= j < s0.len() && s0[j] == r0[k1];
                    assert(s[j].id < s[s.len() - 1].id);
                }
            }
        }
    }
}

/// What `prune_deps` returns: exactly the edges with both ends surviving,
/// in table order, still pairwise distinct.
pub proof fn lemma_prune_deps_props(s: Seq<Dep>, orig: Seq<Issue>, root: u64)
    ensures
        forall|k: int|
            0 <= k < prune_deps(s, orig, root).len() ==> !in_subtree(
                orig,
                (#[trigger] prune_deps(s, orig, root)[k]).blocker_id,
                root,
            ) && !in_subtree(orig, prune_deps(s, orig, root)[k].blocked_id, root) && exists|j: int|
                0 <= j < s.len() && s[j] == prune_deps(s, orig, root)[k],
        forall|j: int|
            0 <= j < s.len() && !in_subtree(orig, (#[trigger] s[j]).blocker_id, root)
                && !in_subtree(orig, s[j].blocked_id, root) ==> prune_deps(s, orig, root).contains(
                s[j],
            ),
        (forall|i: int, j: int| 0 <= i < j < s.len() ==> s[i] != s[j]) ==> (forall|
            k1: int,
            k2: int,
        |
            0 <= k1 < k2 < prune_deps(s, orig, root).len() ==> prune_deps(s, orig, root)[k1]
                != prune_deps(s, orig, root)[k2]),
    decreases s.len(),
{
    let r = prune_deps(s, orig, root);
    if s.len() > 0 {
        let s0 = s.drop_last();
        lemma_prune_deps_props(s0, orig, root);
        let r0 = prune_deps(s0, orig, root);
        assert forall|k: int| 0 <= k < r.len() implies !in_subtree(
            orig,
            (#[trigger] r[k]).blocker_id,
            root,
        ) && !in_subtree(orig, r[k].blocked_id, root) && exists|j: int|
            0 <= j < s.len() && s[j] == r[k] by {
            if k < r0.len() {
                assert(r[k] == r0[k]);
                let j = choose|j: int| 0 <= j < s0.len() && s0[j] == r0[k];
                assert(s[j] == r[k]);
            } else {
                assert(s[s.len() - 1] == r[k]);
            }
        }
        assert forall|j: int|
            0 <= j < s.len() && !in_subtree(orig, (#[trigger] s[j]).blocker_id, root)
                && !in_subtree(orig, s[j].blocked_id, root) implies r.contains(s[j]) by {
            if j < s.len() - 1 {
                assert(s0[j] == s[j]);
                assert(r0.contains(s0[j]));
                let k = choose|k: int| 0 <= k < r0.len() && r0[k] == s0[j];
                assert(r[k] == s[j]);
            } else {
                assert(r[r.len() - 1] == s[j]);
            }
        }
        if forall|i: int, j: int| 0 <= i < j < s.len() ==> s[i] != s[j] {
            assert forall|i: int, j: int| 0 <= i < j < s0.len() implies s0[i] != s0[j] by {
                assert(s0[i] == s[i] && s0[j] == s[j]);
            }
            assert forall|k1: int, k2: int| 0 <= k1 < k2 < r.len() implies r[k1] != r[k2] by {
                if k2 < r0.len() {
                    assert(r[k1] == r0[k1] && r[k2] == r0[k2]);
                } else {
                    assert(r[k1] == r0[k1]);
                    let j = choose|j: int| 0 <= j < s0.len() && s0[j] == r0[k1];
                    assert(s[j] == r[k1] && s[s.len() - 1] == r[k2]);
                }
            }
        }
    }
}

/// What `prune_entries` returns: exactly the entries on surviving issues,
/// in table order, ids ascending, and still at most one open entry.
pub proof fn lemma_prune_entries_props(s: Seq<TimeEntry>, orig: Seq<Issue>, root: u64)
    ensures
        forall|k: int|
            0 <= k < prune_entries(s, orig, root).len() ==> !in_subtree(
                orig,
                (#[trigger] prune_entries(s, orig, root)[k]).issue_id,
                root,
            ) && exists|j: int| 0 <= j < s.len() && s[j] == prune_entries(s, orig, root)[k],
        forall|j: int|
            0 <= j < s.len() && !in_subtree(orig, (#[trigger] s[j]).issue_id, root)
                ==> prune_entries(s, orig, root).contains(s[j]),
        (forall|i: int, j: int| 0 <= i < j < s.len() ==> s[i].id < s[j].id) ==> (forall|
            k1: int,
            k2: int,
        |
            0 <= k1 < k2 < prune_entries(s, orig, root).len() ==> prune_entries(
                s,
                orig,
                root,
            )[k1].id < prune_entries(s, orig, root)[k2].id),
        ((forall|i: int, j: int| 0 <= i < j < s.len() ==> s[i].id < s[j].id) && (forall|
            i: int,
            j: int,
        |
            0 <= i < j < s.len() ==> !((s[i].ended_at is None) && (s[j].ended_at is None))))
            ==> (forall|k1: int, k2: int|
            0 <= k1 < k2 < prune_entries(s, orig, root).len() ==> !(((#[trigger] prune_entries(
                s,
                orig,
                root,
            )[k1]).ended_at is None) && ((#[trigger] prune_entries(s, orig, root)[k2]).ended_at
                is None))),
    decreases s.len(),
{
    let r = prune_entries(s, orig, root);
    if s.len() > 0 {
        let s0 = s.drop_last();
        lemma_prune_entries_props(s0, orig, root);
        let r0 = prune_entries(s0, orig, root);
        assert forall|k: int| 0 <= k < r.len() implies !in_subtree(
            orig,
            (#[trigger] r[k]).issue_id,
            root,
        ) && exists|j: int| 0 <= j < s.len() && s[j] == r[k] by {
            if k < r0.len() {
                assert(r[k] == r0[k]);
                let j = choose|j: int| 0 <= j < s0.len() && s0[j] == r0[k];
                assert(s[j] == r[k]);
            } else {
                assert(s[s.len() - 1] == r[k]);
            }
        }
        assert forall|j: int|
            0 <= j < s.len() && !in_subtree(orig, (#[trigger] s[j]).issue_id, root) implies r
            .contains(s[j]) by {
            if j < s.len() - 1 {
                assert(s0[j] == s[j]);
                assert(r0.contains(s0[j]));
                let k = choose|k: int| 0 <= k < r0.len() && r0[k] == s0[j];
                assert(r[k] == s[j]);
            } else {
                assert(r[r.len() - 1] == s[j]);
            }
        }
        if forall|i: int, j: int| 0 <= i < j < s.len() ==> s[i].id < s[j].id {
            assert forall|i: int, j: int| 0 <= i < j < s0.len() implies s0[i].id < s0[j].id by {
                assert(s0[i] == s[i] && s0[j] == s[j]);
            }
            assert forall|k1: int, k2: int| 0 <= k1 < k2 < r.len() implies r[k1].id < r[k2].id by {
                if k2 < r0.len() {
                    assert(r[k1] == r0[k1] && r[k2] == r0[k2]);
                } else {
                    assert(r[k1] == r0[k1]);
                    let j = choose|j: int| 0 <= j < s0.len() && s0[j] == r0[k1];
                    assert(s[j].id < s[s.len() - 1].id);
                }
            }
            if forall|i: int, j: int|
                0 <= i < j < s.len() ==> !((s[i].ended_at is None) && (s[j].ended_at is None)) {
                assert forall|i: int, j: int|
                    0 <= i < j < s0.len() implies !((s0[i].ended_at is None) && (s0[j].ended_at
                    is None)) by {
                    assert(s0[i] == s[i] && s0[j] == s[j]);
                }
                assert forall|k1: int, k2: int| 0 <= k1 < k2 < r.len() implies !(((
                #[trigger] r[k1]).ended_at is None) && ((#[trigger] r[k2]).ended_at is None)) by {
                    if k2 < r0.len() {
                        assert(r[k1] == r0[k1] && r[k2] == r0[k2]);
                    } else {
                        assert(r[k1] == r0[k1]);
                        let j = choose|j: int| 0 <= j < s0.len() && s0[j] == r0[k1];
                        assert(s[j] == r[k1] && s[s.len() - 1] == r[k2]);
                        assert(s[j].id < s[s.len() - 1].id);
                        if (r[k1].ended_at is None) && (r[k2].ended_at is None) {
                            assert(!((s[j].ended_at is None) && (s[s.len() - 1].ended_at is None)));
                        }
                    }
                }
            }
        }
    }
}

/// What `prune_members` returns: exactly the rows on surviving issues, in
/// table order, still pairwise distinct.
pub proof fn lemma_prune_members_props(s: Seq<MilestoneMember>, orig: Seq<Issue>, root: u64)
    ensures
        forall|k: int|
            0 <= k < prune_members(s, orig, root).len() ==> !in_subtree(
                orig,
                (#[trigger] prune_members(s, orig, root)[k]).issue_id,
                root,
            ) && exists|j: int| 0 <= j < s.len() && s[j] == prune_members(s, orig, root)[k],
        forall|j: int|
            0 <= j < s.len() && !in_subtree(orig, (#[trigger] s[j]).issue_id, root)
                ==> prune_members(s, orig, root).contains(s[j]),
        (forall|i: int, j: int| 0 <= i < j < s.len() ==> s[i] != s[j]) ==> (forall|
            k1: int,
            k2: int,
        |
            0 <= k1 < k2 < prune_members(s, orig, root).len() ==> prune_members(s, orig, root)[k1]
                != prune_members(s, orig, root)[k2]),
    decreases s.len(),
{
    let r = prune_members(s, orig, root);
    if s.len() > 0 {
        let s0 = s.drop_last();
        lemma_prune_members_props(s0, orig, root);
        let r0 = prune_members(s0, orig, root);
        assert forall|k: int| 0 <= k < r.len() implies !in_subtree(
            orig,
            (#[trigger] r[k]).issue_id,
            root,
        ) && exists|j: int| 0 <= j < s.len() && s[j] == r[k] by {
            if k < r0.len() {
                assert(r[k] == r0[k]);
                let j = choose|j: int| 0 <= j < s0.len() && s0[j] == r0[k];
                assert(s[j] == r[k]);
            } else {
                assert(s[s.len() - 1] == r[k]);
            }
        }
        assert forall|j: int|
            0 <= j < s.len() && !in_subtree(orig, (#[trigger] s[j]).issue_id, root) implies r
            .contains(s[j]) by {
            if j < s.len() - 1 {
                assert(s0[j] == s[j]);
                assert(r0.contains(s0[j]));
                let k = choose|k: int| 0 <= k < r0.len() && r0[k] == s0[j];
                assert(r[k] == s[j]);
            } else {
                assert(r[r.len() - 1] == s[j]);
            }
        }
        if forall|i: int, j: int| 0 <= i < j < s.len() ==> s[i] != s[j] {
            assert forall|i: int, j: int| 0 <= i < j < s0.len() implies s0[i] != s0[j] by {
                assert(s0[i] == s[i] && s0[j] == s[j]);
            }
            assert forall|k1: int, k2: int| 0 <= k1 < k2 < r.len() implies r[k1] != r[k2] by {
                if k2 < r0.len() {
                    assert(r[k1] == r0[k1] && r[k2] == r0[k2]);
                } else {
                    assert(r[k1] == r0[k1]);
                    let j = choose|j: int| 0 <= j < s0.len() && s0[j] == r0[k1];
                    assert(s[j] == r[k1] && s[s.len() - 1] == r[k2]);
                }
            }
        }
    }
}

/// Issues surviving the deletion are exactly the issues outside the
/// subtree.
pub proof fn lemma_pruned_has_issue(orig: Seq<Issue>, root: u64)
    requires
        issues_sorted(orig),
    ensures
        forall|x: u64|
            has_issue_in(prune_issues(orig, orig, root), x) == (has_issue_in(orig, x)
                && !in_subtree(orig, x, root)),
{
    lemma_prune_issues_props(orig, orig, root);
    let r = prune_issues(orig, orig, root);
    assert forall|x: u64| has_issue_in(r, x) == (has_issue_in(orig, x) && !in_subtree(
        orig,
        x,
        root,
    )) by {
        if has_issue_in(r, x) {
            let k = choose|k: int| 0 <= k < r.len() && r[k].id == x;
            let j = choose|j: int| 0 <= j < orig.len() && orig[j] == r[k];
            assert(orig[j].id == x);
            assert(!in_subtree(orig, x, root));
        }
        if has_issue_in(orig, x) && !in_subtree(orig, x, root) {
            let j = choose|j: int| 0 <= j < orig.len() && orig[j].id == x;
            assert(r.contains(orig[j]));
            let k = choose|k: int| 0 <= k < r.len() && r[k] == orig[j];
            assert(r[k].id == x);
        }
    }
}

/// After the pruning of every relation and the scrubbing of session
/// references, the store is well-formed again, and the surviving issues
/// are exactly those outside the deleted subtree.
pub proof fn lemma_delete_wf(pre: StoreV, v: StoreV, id: u64)
    requires
        pre.wf(),
        pre.has_issue(id),
        v == (StoreV {
            issues: prune_issues(pre.issues, pre.issues, id),
            labels: prune_labels(pre.labels, pre.issues, id),
            comments: prune_comments(pre.comments, pre.issues, id),
            deps: prune_deps(pre.deps, pre.issues, id),
            entries: prune_entries(pre.entries, pre.issues, id),
            sessions: scrub_sessions(pre.sessions, pre.issues, id),
            members: prune_members(pre.members, pre.issues, id),
            ..pre
        }),
    ensures
        v.wf(),
        forall|x: u64| v.has_issue(x) == (pre.has_issue(x) && !in_subtree(pre.issues, x, id)),
        in_subtree(pre.issues, id, id),
{
            lemma_prune_issues_props(pre.issues, pre.issues, id);
            lemma_prune_labels_props(pre.labels, pre.issues, id);
            lemma_prune_comments_props(pre.comments, pre.issues, id);
            lemma_prune_deps_props(pre.deps, pre.issues, id);
            lemma_prune_entries_props(pre.entries, pre.issues, id);
            lemma_prune_members_props(pre.members, pre.issues, id);
            lemma_pruned_has_issue(pre.issues, id);
            assert(v.issues_wf()) by {
                assert forall|k: int| 0 <= k < v.issues.len() implies (#[trigger] v.issues[k]).id
                    < v.next_issue_id && ((v.issues[k].closed_at is Some) <==> v.issues[k].status
                    != crate::model::Status::Open) && (match v.issues[k].parent_id {
                    Some(p) => p < v.issues[k].id && has_issue_in(v.issues, p),
                    None => true,
                }) by {
                    let j = choose|j: int| 0 <= j < pre.issues.len() && pre.issues[j] == v.issues[k];
                    match v.issues[k].parent_id {
                        Some(p) => {
                            assert(has_issue_in(pre.issues, p));
                            assert(!in_subtree(pre.issues, p, id)) by {
                                if in_subtree(pre.issues, p, id) {
                                    lemma_sorted_index_unique(
                                        pre.issues,
                                        j,
                                        idx_of(pre.issues, v.issues[k].id),
                                    );
                                    assert(issue_in(pre.issues, v.issues[k].id) == pre.issues[j]);
                                    assert(in_subtree(pre.issues, v.issues[k].id, id));
                                }
                            }
                        },
                        None => {},
                    }
                }
            }
            assert(v.labels_wf()) by {
                assert forall|k: int| 0 <= k < v.labels.len() implies has_issue_in(
                    v.issues,
                    (#[trigger] v.labels[k]).issue_id,
                ) by {
                    let j = choose|j: int| 0 <= j < pre.labels.len() && pre.labels[j] == v.labels[k];
                    assert(has_issue_in(pre.issues, v.labels[k].issue_id));
                }
            }
            assert(v.comments_wf()) by {
                assert forall|k: int| 0 <= k < v.comments.len() implies (#[trigger] v.comments[k]).id
                    < v.next_comment_id && has_issue_in(v.issues, v.comments[k].issue_id) by {
                    let j = choose|j: int|
                        0 <= j < pre.comments.len() && pre.comments[j] == v.comments[k];
                    assert(has_issue_in(pre.issues, v.comments[k].issue_id));
                }
            }
            assert(v.deps_wf()) by {
                assert forall|k: int| 0 <= k < v.deps.len() implies (#[trigger] v.deps[k]).blocker_id
                    != v.deps[k].blocked_id && has_issue_in(v.issues, v.deps[k].blocker_id)
                    && has_issue_in(v.issues, v.deps[k].blocked_id) by {
                    let j = choose|j: int| 0 <= j < pre.deps.len() && pre.deps[j] == v.deps[k];
                    assert(has_issue_in(pre.issues, v.deps[k].blocker_id));
                    assert(has_issue_in(pre.issues, v.deps[k].blocked_id));
                }
            }
            assert(v.entries_wf()) by {
                assert forall|k: int| 0 <= k < v.entries.len() implies (#[trigger] v.entries[k]).id
                    < v.next_entry_id && has_issue_in(v.issues, v.entries[k].issue_id) && ((
                v.entries[k].ended_at is None) <==> (v.entries[k].duration_seconds is None)) by {
                    let j = choose|j: int|
                        0 <= j < pre.entries.len() && pre.entries[j] == v.entries[k];
                    assert(has_issue_in(pre.issues, v.entries[k].issue_id));
                }
            }
            assert(v.sessions_wf()) by {
                assert forall|k: int| 0 <= k < v.sessions.len() implies (#[trigger] v.sessions[k]).id
                    == pre.sessions[k].id && (match v.sessions[k].active_issue_id {
                    Some(a) => has_issue_in(v.issues, a),
                    None => true,
                }) by {
                    assert(v.sessions[k] == scrub_session(pre.sessions[k], pre.issues, id));
                    match v.sessions[k].active_issue_id {
                        Some(a) => {
                            assert(pre.sessions[k].active_issue_id == Some(a));
                            assert(!in_subtree(pre.issues, a, id));
                            assert(has_issue_in(pre.issues, a));
                        },
                        None => {},
                    }
                }
            }
            assert(v.milestones_wf());
            assert(v.members_wf()) by {
                assert forall|k: int| 0 <= k < v.members.len() implies v.has_milestone(
                    (#[trigger] v.members[k]).milestone_id,
                ) && has_issue_in(v.issues, v.members[k].issue_id) by {
                    let j = choose|j: int|
                        0 <= j < pre.members.len() && pre.members[j] == v.members[k];
                    assert(pre.has_milestone(v.members[k].milestone_id));
                    assert(has_issue_in(pre.issues, v.members[k].issue_id));
                }
            }
            assert(in_subtree(pre.issues, id, id));
        }

impl Store {
    /// Whether this id lies in the subtree below `root`.
    pub(crate) fn contains_id(doomed: &Vec<u64>, x: u64) -> (r: bool)
        ensures
            r == doomed@.contains(x),
    {
        let mut i: usize = 0;
        while i < doomed.len()
            invariant
                i <= doomed@.len(),
                forall|j: int| 0 <= j < i ==> doomed@[j] != x,
            decreases doomed@.len() - i,
        {
            if doomed[i] == x {
                return true;
            }
            i += 1;
        }
        false
    }

    /// The ids of the subtree rooted at `root`, in ascending order: the
    /// root and every descendant. A parent precedes its children in the
    /// table, so one forward pass decides each issue from its parent.
    #[verifier::rlimit(50)]
    fn collect_subtree(&self, root: u64) -> (doomed: Vec<u64>)
        requires
            self@.wf(),
        ensures
            forall|x: u64| doomed@.contains(x) == in_subtree(self@.issues, x, root),
    {
        let ghost s = self@.issues;
        let mut doomed: Vec<u64> = Vec::new();
        let mut j: usize = 0;
        while j < self.issues.len()
            invariant
                self@.wf(),
                s == self@.issues,
                j <= s.len(),
                forall|k: int| 0 <= k < doomed@.len() ==> in_subtree(s, #[trigger] doomed@[k], root),
                forall|i: int|
                    0 <= i < j && #[trigger] in_subtree(s, s[i].id, root) ==> doomed@.contains(
                        s[i].id,
                    ),
            decreases s.len() - j,
        {
            let xid = self.issues[j].id;
            proof {
                lemma_sorted_index_unique(s, j as int, idx_of(s, xid));
            }
            let flag: bool = if xid == root {
                true
            } else {
                match self.issues[j].parent_id {
                    Some(p) => Self::contains_id(&doomed, p),
                    None => false,
                }
            };
            proof {
                assert(has_issue_in(s, xid)) by {
                    assert(s[j as int].id == xid);
                }
                assert(issue_in(s, xid) == s[j as int]);
                if xid != root {
                    match s[j as int].parent_id {
                        Some(p) => {
                            if doomed@.contains(p) {
                                let k = choose|k: int| 0 <= k < doomed@.len() && doomed@[k] == p;
                                assert(in_subtree(s, p, root));
                            }
                            if in_subtree(s, p, root) {
                                let pj = idx_of(s, p);
                                assert(s[pj].id == p);
                                assert(p < xid);
                                if pj >= j {
                                    if pj > j {
                                        assert(s[j as int].id < s[pj].id);
                                    }
                                    assert(false);
                                }
                                assert(doomed@.contains(p));
                            }
                            assert(flag == in_subtree(s, xid, root));
                        },
                        None => {
                            assert(flag == in_subtree(s, xid, root));
                        },
                    }
                } else {
                    assert(in_subtree(s, xid, root));
                }
            }
            if flag {
                let ghost d0 = doomed@;
                doomed.push(xid);
                proof {
                    assert(doomed@ == d0.push(xid));
                    assert forall|x: u64| d0.contains(x) implies doomed@.contains(x) by {
                        let k = choose|k: int| 0 <= k < d0.len() && d0[k] == x;
                        assert(doomed@[k] == x);
                    }
                    assert(doomed@.contains(xid)) by {
                        assert(doomed@[doomed@.len() - 1] == xid);
                    }
                }
            }
            j += 1;
        }
        proof {
            assert forall|x: u64| doomed@.contains(x) == in_subtree(s, x, root) by {
                if doomed@.contains(x) {
                    let k = choose|k: int| 0 <= k < doomed@.len() && doomed@[k] == x;
                    assert(in_subtree(s, x, root));
                }
                if in_subtree(s, x, root) {
                    assert(has_issue_in(s, x));
                    let i = idx_of(s, x);
                    assert(s[i].id == x);
                    assert(doomed@.contains(s[i].id));
                }
            }
        }
        doomed
    }

    /// Deletes an issue and, as one conceptually atomic step, its whole
    /// subtree, every label, comment, dependency edge, time entry and
    /// milestone membership of the removed issues; a session reference to a
    /// removed issue becomes null. Returns `false` when the id is absent.
    #[verifier::rlimit(60)]
    pub fn delete_issue(&mut self, id: u64) -> (r: bool)
        requires
            old(self)@.wf(),
        ensures
            final(self)@.wf(),
            r == old(self)@.has_issue(id),
            !r ==> final(self)@ == old(self)@,
            r ==> final(self)@ == (StoreV {
                issues: prune_issues(old(self)@.issues, old(self)@.issues, id),
                labels: prune_labels(old(self)@.labels, old(self)@.issues, id),
                comments: prune_comments(old(self)@.comments, old(self)@.issues, id),
                deps: prune_deps(old(self)@.deps, old(self)@.issues, id),
                entries: prune_entries(old(self)@.entries, old(self)@.issues, id),
                sessions: scrub_sessions(old(self)@.sessions, old(self)@.issues, id),
                members: prune_members(old(self)@.members, old(self)@.issues, id),
                ..old(self)@
            }),
            forall|x: u64|
                final(self)@.has_issue(x) == (old(self)@.has_issue(x) && !(r && in_subtree(
                    old(self)@.issues,
                    x,
                    id,
                ))),
    {
        if self.find_issue_index(id).is_none() {
            return false;
        }
        let ghost pre = self@;
        let doomed = self.collect_subtree(id);
        let mut new_issues: Vec<Issue> = Vec::new();
        let mut i: usize = 0;
        proof {
            assert(pre.issues.subrange(0, 0) =~= Seq::<Issue>::empty());
            assert(new_issues@ =~= prune_issues(pre.issues.subrange(0, 0), pre.issues, id));
        }
        while i < self.issues.len()
            invariant
                self@ == pre,
                pre == old(self)@,
                self@.wf(),
                forall|x: u64| doomed@.contains(x) == in_subtree(pre.issues, x, id),
                i <= pre.issues.len(),
                new_issues@ == prune_issues(pre.issues.subrange(0, i as int), pre.issues, id),
            decreases pre.issues.len() - i,
        {
            proof {
                assert(pre.issues.subrange(0, i + 1).drop_last() =~= pre.issues.subrange(
                    0,
                    i as int,
                ));
                assert(pre.issues.subrange(0, i + 1).last() == pre.issues[i as int]);
            }
            if !Self::contains_id(&doomed, self.issues[i].id) {
                new_issues.push(self.issues[i].duplicate());
            }
            i += 1;
        }
        let mut new_labels: Vec<Label> = Vec::new();
        let mut i: usize = 0;
        proof {
            assert(pre.issues.subrange(0, pre.issues.len() as int) =~= pre.issues);
            assert(pre.labels.subrange(0, 0) =~= Seq::<Label>::empty());
            assert(new_labels@ =~= prune_labels(pre.labels.subrange(0, 0), pre.issues, id));
        }
        while i < self.labels.len()
            invariant
                self@ == pre,
                pre == old(self)@,
                self@.wf(),
                forall|x: u64| doomed@.contains(x) == in_subtree(pre.issues, x, id),
                i <= pre.labels.len(),
                new_labels@ == prune_labels(pre.labels.subrange(0, i as int), pre.issues, id),
            decreases pre.labels.len() - i,
        {
            proof {
                assert(pre.labels.subrange(0, i + 1).drop_last() =~= pre.labels.subrange(
                    0,
                    i as int,
                ));
                assert(pre.labels.subrange(0, i + 1).last() == pre.labels[i as int]);
            }
            if !Self::contains_id(&doomed, self.labels[i].issue_id) {
                let row = Label {
                    issue_id: self.labels[i].issue_id,
                    name: self.labels[i].name.clone(),
                };
                proof {
                    assert(row == pre.labels[i as int]);
                }
                new_labels.push(row);
            }
            i += 1;
        }
        let mut new_comments: Vec<Comment> = Vec::new();
        let mut i: usize = 0;
        proof {
            assert(pre.labels.subrange(0, pre.labels.len() as int) =~= pre.labels);
            assert(pre.comments.subrange(0, 0) =~= Seq::<Comment>::empty());
            assert(new_comments@ =~= prune_comments(pre.comments.subrange(0, 0), pre.issues, id));
        }
        while i < self.comments.len()
            invariant
                self@ == pre,
                pre == old(self)@,
                self@.wf(),
                forall|x: u64| doomed@.contains(x) == in_subtree(pre.issues, x, id),
                i <= pre.comments.len(),
                new_comments@ == prune_comments(pre.comments.subrange(0, i as int), pre.issues, id),
            decreases pre.comments.len() - i,
        {
            proof {
                assert(pre.comments.subrange(0, i + 1).drop_last() =~= pre.comments.subrange(
                    0,
                    i as int,
                ));
                assert(pre.comments.subrange(0, i + 1).last() == pre.comments[i as int]);
            }
            if !Self::contains_id(&doomed, self.comments[i].issue_id) {
                new_comments.push(self.comments[i].duplicate());
            }
            i += 1;
        }
        let mut new_deps: Vec<Dep> = Vec::new();
        let mut i: usize = 0;
        proof {
            assert(pre.comments.subrange(0, pre.comments.len() as int) =~= pre.comments);
            assert(pre.deps.subrange(0, 0) =~= Seq::<Dep>::empty());
            assert(new_deps@ =~= prune_deps(pre.deps.subrange(0, 0), pre.issues, id));
        }
        while i < self.deps.len()
            invariant
                self@ == pre,
                pre == old(self)@,
                self@.wf(),
                forall|x: u64| doomed@.contains(x) == in_subtree(pre.issues, x, id),
                i <= pre.deps.len(),
                new_deps@ == prune_deps(pre.deps.subrange(0, i as int), pre.issues, id),
            decreases pre.deps.len() - i,
        {
            proof {
                assert(pre.deps.subrange(0, i + 1).drop_last() =~= pre.deps.subrange(0, i as int));
                assert(pre.deps.subrange(0, i + 1).last() == pre.deps[i as int]);
            }
            if !Self::contains_id(&doomed, self.deps[i].blocker_id) && !Self::contains_id(
                &doomed,
                self.deps[i].blocked_id,
            ) {
                new_deps.push(self.deps[i]);
            }
            i += 1;
        }
        let mut new_entries: Vec<TimeEntry> = Vec::new();
        let mut i: usize = 0;
        proof {
            assert(pre.deps.subrange(0, pre.deps.len() as int) =~= pre.deps);
            assert(pre.entries.subrange(0, 0) =~= Seq::<TimeEntry>::empty());
            assert(new_entries@ =~= prune_entries(pre.entries.subrange(0, 0), pre.issues, id));
        }
        while i < self.entries.len()
            invariant
                self@ == pre,
                pre == old(self)@,
                self@.wf(),
                forall|x: u64| doomed@.contains(x) == in_subtree(pre.issues, x, id),
                i <= pre.entries.len(),
                new_entries@ == prune_entries(pre.entries.subrange(0, i as int), pre.issues, id),
            decreases pre.entries.len() - i,
        {
            proof {
                assert(pre.entries.subrange(0, i + 1).drop_last() =~= pre.entries.subrange(
                    0,
                    i as int,
                ));
                assert(pre.entries.subrange(0, i + 1).last() == pre.entries[i as int]);
            }
            if !Self::contains_id(&doomed, self.entries[i].issue_id) {
                new_entries.push(self.entries[i]);
            }
            i += 1;
        }
        let mut new_members: Vec<MilestoneMember> = Vec::new();
        let mut i: usize = 0;
        proof {
            assert(pre.entries.subrange(0, pre.entries.len() as int) =~= pre.entries);
            assert(pre.members.subrange(0, 0) =~= Seq::<MilestoneMember>::empty());
            assert(new_members@ =~= prune_members(pre.members.subrange(0, 0), pre.issues, id));
        }
        while i < self.members.len()
            invariant
                self@ == pre,
                pre == old(self)@,
                self@.wf(),
                forall|x: u64| doomed@.contains(x) == in_subtree(pre.issues, x, id),
                i <= pre.members.len(),
                new_members@ == prune_members(pre.members.subrange(0, i as int), pre.issues, id),
            decreases pre.members.len() - i,
        {
            proof {
                assert(pre.members.subrange(0, i + 1).drop_last() =~= pre.members.subrange(
                    0,
                    i as int,
                ));
                assert(pre.members.subrange(0, i + 1).last() == pre.members[i as int]);
            }
            if !Self::contains_id(&doomed, self.members[i].issue_id) {
                new_members.push(self.members[i]);
            }
            i += 1;
        }
        let mut new_sessions: Vec<Session> = Vec::new();
        let mut i: usize = 0;
        proof {
            assert(pre.members.subrange(0, pre.members.len() as int) =~= pre.members);
        }
        while i < self.sessions.len()
            invariant
                self@ == pre,
                pre == old(self)@,
                self@.wf(),
                forall|x: u64| doomed@.contains(x) == in_subtree(pre.issues, x, id),
                i <= pre.sessions.len(),
                new_sessions@.len() == i,
                forall|k: int|
                    0 <= k < i ==> new_sessions@[k] == scrub_session(
                        pre.sessions[k],
                        pre.issues,
                        id,
                    ),
            decreases pre.sessions.len() - i,
        {
            let mut ss = self.sessions[i].duplicate();
            let clear: bool = match ss.active_issue_id {
                Some(a) => Self::contains_id(&doomed, a),
                None => false,
            };
            if clear {
                ss.active_issue_id = None;
            }
            proof {
                assert(ss == scrub_session(pre.sessions[i as int], pre.issues, id));
            }
            new_sessions.push(ss);
            i += 1;
        }
        proof {
            assert(new_sessions@ =~= scrub_sessions(pre.sessions, pre.issues, id));
        }
        self.issues = new_issues;
        self.labels = new_labels;
        self.comments = new_comments;
        self.deps = new_deps;
        self.entries = new_entries;
        self.members = new_members;
        self.sessions = new_sessions;
        proof {
            lemma_delete_wf(pre, self@, id);
        }
        true
    }

    /// Deletion as the command layer performs it: an absent id is an
    /// error naming the issue.
    pub fn delete_issue_checked(&mut self, id: u64) -> (r: Result<(), StoreError>)
        requires
            old(self)@.wf(),
        ensures
            final(self)@.wf(),
            match r {
                Ok(_) => {
                    &&& old(self)@.has_issue(id)
                    &&& final(self)@ == (StoreV {
                        issues: prune_issues(old(self)@.issues, old(self)@.issues, id),
                        labels: prune_labels(old(self)@.labels, old(self)@.issues, id),
                        comments: prune_comments(old(self)@.comments, old(self)@.issues, id),
                        deps: prune_deps(old(self)@.deps, old(self)@.issues, id),
                        entries: prune_entries(old(self)@.entries, old(self)@.issues, id),
                        sessions: scrub_sessions(old(self)@.sessions, old(self)@.issues, id),
                        members: prune_members(old(self)@.members, old(self)@.issues, id),
                        ..old(self)@
                    })
                    &&& forall|x: u64|
                        final(self)@.has_issue(x) == (old(self)@.has_issue(x) && !in_subtree(
                            old(self)@.issues,
                            x,
                            id,
                        ))
                },
                Err(e) => {
                    &&& e == (StoreError::IssueNotFound { id })
                    &&& !old(self)@.has_issue(id)
                    &&& final(self)@ == old(self)@
                },
            },
    {
        if self.delete_issue(id) {
            Ok(())
        } else {
            Err(StoreError::IssueNotFound { id })
        }
    }
}

} // verus!
