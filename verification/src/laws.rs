//! The store's cross-operation laws, each proved once over the spec-level
//! transitions that the operations' contracts use.

use vstd::prelude::*;
use crate::hierarchy::{
    in_subtree, prune_comments, prune_deps, prune_entries, prune_issues, prune_labels,
    prune_members, scrub_sessions, lemma_delete_wf,
};
use crate::issues::{close_transition, reopen_transition};
use crate::model::{Dep, Status};
use crate::queries::{filter_pred, select_spec, IssueFilter, lemma_select_spec_props};
use crate::store::{has_issue_in, idx_of, lemma_sorted_index_unique, StoreV};

verus! {

/// Closing an issue and then reopening it restores `status = open` and
/// `closed_at = null`; every other field of the issue except `updated_at`,
/// and every other issue, are exactly as before.
pub proof fn lemma_close_then_reopen(v: StoreV, id: u64, t1: u64, t2: u64)
    requires
        v.wf(),
        v.has_issue(id),
    ensures
        ({
            let v1 = close_transition(v, id, t1);
            let v2 = reopen_transition(v1, id, t2);
            &&& v2.issue(id).status == Status::Open
            &&& v2.issue(id).closed_at is None
            &&& v2.issue(id).title == v.issue(id).title
            &&& v2.issue(id).description == v.issue(id).description
            &&& v2.issue(id).priority == v.issue(id).priority
            &&& v2.issue(id).parent_id == v.issue(id).parent_id
            &&& v2.issue(id).created_at == v.issue(id).created_at
            &&& forall|j: int|
                0 <= j < v.issues.len() && v.issues[j].id != id ==> close_transition(
                    v,
                    id,
                    t1,
                ).issues[j] == v.issues[j] && reopen_transition(v1, id, t2).issues[j] == v.issues[j]
        }),
{
    let i = idx_of(v.issues, id);
    assert(0 <= i < v.issues.len() && v.issues[i].id == id);
    let v1 = close_transition(v, id, t1);
    assert(v1.issues[i].id == id);
    assert(forall|k: int| 0 <= k < v1.issues.len() ==> #[trigger] v1.issues[k].id == v.issues[k].id);
    assert(has_issue_in(v1.issues, id)) by {
        assert(v1.issues[i].id == id);
    }
    assert forall|i2: int, j2: int|
        0 <= i2 < j2 < v1.issues.len() implies v1.issues[i2].id < v1.issues[j2].id by {
        assert(v1.issues[i2].id == v.issues[i2].id && v1.issues[j2].id == v.issues[j2].id);
    }
    lemma_sorted_index_unique(v1.issues, i, idx_of(v1.issues, id));
    assert(v1.issue(id) == v1.issues[i]);
    let v2 = reopen_transition(v1, id, t2);
    assert(v2.issues[i].id == id);
    assert(forall|k: int|
        0 <= k < v2.issues.len() ==> #[trigger] v2.issues[k].id == v1.issues[k].id);
    assert(has_issue_in(v2.issues, id)) by {
        assert(v2.issues[i].id == id);
    }
    assert forall|i2: int, j2: int|
        0 <= i2 < j2 < v2.issues.len() implies v2.issues[i2].id < v2.issues[j2].id by {
        assert(v2.issues[i2].id == v.issues[i2].id && v2.issues[j2].id == v.issues[j2].id);
    }
    lemma_sorted_index_unique(v2.issues, i, idx_of(v2.issues, id));
    assert(v2.issue(id) == v2.issues[i]);
}

/// After deleting issue `root`, no surviving row of any relation refers
/// to `root` or to any of its descendants, and no session still points at
/// one.
pub proof fn lemma_delete_leaves_no_references(v: StoreV, root: u64, x: u64)
    requires
        v.wf(),
        v.has_issue(root),
        in_subtree(v.issues, x, root),
    ensures
        ({
            let v2 = StoreV {
                issues: prune_issues(v.issues, v.issues, root),
                labels: prune_labels(v.labels, v.issues, root),
                comments: prune_comments(v.comments, v.issues, root),
                deps: prune_deps(v.deps, v.issues, root),
                entries: prune_entries(v.entries, v.issues, root),
                sessions: scrub_sessions(v.sessions, v.issues, root),
                members: prune_members(v.members, v.issues, root),
                ..v
            };
            &&& !v2.has_issue(x)
            &&& forall|k: int| 0 <= k < v2.labels.len() ==> (#[trigger] v2.labels[k]).issue_id != x
            &&& forall|k: int|
                0 <= k < v2.comments.len() ==> (#[trigger] v2.comments[k]).issue_id != x
            &&& forall|k: int|
                0 <= k < v2.deps.len() ==> (#[trigger] v2.deps[k]).blocker_id != x
                    && v2.deps[k].blocked_id != x
            &&& forall|k: int|
                0 <= k < v2.entries.len() ==> (#[trigger] v2.entries[k]).issue_id != x
            &&& forall|k: int|
                0 <= k < v2.members.len() ==> (#[trigger] v2.members[k]).issue_id != x
            &&& forall|k: int|
                0 <= k < v2.sessions.len() ==> (#[trigger] v2.sessions[k]).active_issue_id != Some(
                    x,
                )
        }),
{
    let v2 = StoreV {
        issues: prune_issues(v.issues, v.issues, root),
        labels: prune_labels(v.labels, v.issues, root),
        comments: prune_comments(v.comments, v.issues, root),
        deps: prune_deps(v.deps, v.issues, root),
        entries: prune_entries(v.entries, v.issues, root),
        sessions: scrub_sessions(v.sessions, v.issues, root),
        members: prune_members(v.members, v.issues, root),
        ..v
    };
    lemma_delete_wf(v, v2, root);
    assert(!v2.has_issue(x));
    assert forall|k: int| 0 <= k < v2.labels.len() implies (#[trigger] v2.labels[k]).issue_id
        != x by {
        assert(has_issue_in(v2.issues, v2.labels[k].issue_id));
    }
    assert forall|k: int| 0 <= k < v2.comments.len() implies (#[trigger] v2.comments[k]).issue_id
        != x by {
        assert(has_issue_in(v2.issues, v2.comments[k].issue_id));
    }
    assert forall|k: int| 0 <= k < v2.deps.len() implies (#[trigger] v2.deps[k]).blocker_id != x
        && v2.deps[k].blocked_id != x by {
        assert(has_issue_in(v2.issues, v2.deps[k].blocker_id));
        assert(has_issue_in(v2.issues, v2.deps[k].blocked_id));
    }
    assert forall|k: int| 0 <= k < v2.entries.len() implies (#[trigger] v2.entries[k]).issue_id
        != x by {
        assert(has_issue_in(v2.issues, v2.entries[k].issue_id));
    }
    assert forall|k: int| 0 <= k < v2.members.len() implies (#[trigger] v2.members[k]).issue_id
        != x by {
        assert(has_issue_in(v2.issues, v2.members[k].issue_id));
    }
    assert forall|k: int| 0 <= k < v2.sessions.len() implies (
    #[trigger] v2.sessions[k]).active_issue_id != Some(x) by {
        match v2.sessions[k].active_issue_id {
            Some(a) => {
                assert(has_issue_in(v2.issues, a));
            },
            None => {},
        }
    }
}

/// A well-formed store never holds a self-loop edge, so
/// `add_dependency(a, a)` can never have succeeded.
pub proof fn lemma_no_self_edge(v: StoreV, a: u64)
    requires
        v.wf(),
    ensures
        !v.dep_exists(a, a),
{
    if v.dep_exists(a, a) {
        let i = choose|i: int|
            0 <= i < v.deps.len() && v.deps[i] == (Dep { blocker_id: a, blocked_id: a });
        assert(v.deps[i].blocker_id != v.deps[i].blocked_id);
    }
}

/// Adding an edge makes it present, so a second `add_dependency` of the
/// same pair is the no-op its contract prescribes: the edge exists in the
/// store the first call produced.
pub proof fn lemma_add_dependency_idempotent(v: StoreV, blocked: u64, blocker: u64)
    requires
        v.wf(),
        !v.dep_exists(blocked, blocker),
    ensures
        ({
            let v2 = StoreV {
                deps: v.deps.push(Dep { blocker_id: blocker, blocked_id: blocked }),
                ..v
            };
            v2.dep_exists(blocked, blocker)
        }),
{
    let v2 = StoreV { deps: v.deps.push(Dep { blocker_id: blocker, blocked_id: blocked }), ..v };
    assert(v2.deps[v2.deps.len() - 1] == (Dep { blocker_id: blocker, blocked_id: blocked }));
}

/// The readiness characterisation: an issue is in the ready set exactly
/// when it is open and none of its blockers is open.
pub proof fn lemma_ready_set_characterisation(v: StoreV, id: u64)
    requires
        v.wf(),
    ensures
        (exists|k: int|
            0 <= k < select_spec(v.issues, v, IssueFilter::Ready).len() && select_spec(
                v.issues,
                v,
                IssueFilter::Ready,
            )[k].id == id) <==> v.is_ready(id),
{
    lemma_select_spec_props(v.issues, v, IssueFilter::Ready);
    let r = select_spec(v.issues, v, IssueFilter::Ready);
    if exists|k: int| 0 <= k < r.len() && r[k].id == id {
        let k = choose|k: int| 0 <= k < r.len() && r[k].id == id;
        let j = choose|j: int| 0 <= j < v.issues.len() && v.issues[j] == r[k];
        assert(filter_pred(v, IssueFilter::Ready, v.issues[j]));
        lemma_sorted_index_unique(v.issues, j, idx_of(v.issues, id));
        assert(v.issue(id) == v.issues[j]);
        assert(v.is_ready(id));
    }
    if v.is_ready(id) {
        let j = idx_of(v.issues, id);
        assert(0 <= j < v.issues.len() && v.issues[j].id == id);
        lemma_sorted_index_unique(v.issues, j, idx_of(v.issues, id));
        assert(v.issues[j] == v.issue(id));
        assert(filter_pred(v, IssueFilter::Ready, v.issues[j]));
        assert(r.contains(v.issues[j]));
        let k = choose|k: int| 0 <= k < r.len() && r[k] == v.issues[j];
        assert(r[k].id == id);
    }
}

/// At most one time entry is open store-wide at any instant: the single
/// global timer.
pub proof fn lemma_single_active_timer(v: StoreV, i: int, j: int)
    requires
        v.wf(),
        0 <= i < v.entries.len(),
        0 <= j < v.entries.len(),
        i != j,
        v.entries[i].ended_at is None,
    ensures
        v.entries[j].ended_at is Some,
{
    if i < j {
        assert(!((v.entries[i].ended_at is None) && (v.entries[j].ended_at is None)));
    } else {
        assert(!((v.entries[j].ended_at is None) && (v.entries[i].ended_at is None)));
    }
}

} // verus!
