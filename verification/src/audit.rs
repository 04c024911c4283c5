//! An executable audit of the store invariant: `check_wf` decides
//! [`StoreV::wf`] for an arbitrary store value, so a caller that rebuilt a
//! store from an untrusted source (a hand-edited or legacy storage file)
//! can test it before using operations that require the invariant.

use vstd::prelude::*;
use crate::model::{Status};
use crate::store::{has_issue_in, issues_sorted, Store};
use crate::text::str_eq;

verus! {

/// Strict ascent between every pair follows from strict ascent between
/// neighbours.
pub proof fn lemma_adjacent_implies_sorted(ids: Seq<u64>)
    requires
        forall|i: int| 0 <= i < ids.len() - 1 ==> #[trigger] ids[i] < ids[i + 1],
    ensures
        forall|i: int, j: int| 0 <= i < j < ids.len() ==> ids[i] < ids[j],
{
    assert forall|i: int, j: int| 0 <= i < j < ids.len() implies ids[i] < ids[j] by {
        lemma_chain_ascends(ids, i, j);
    }
}

proof fn lemma_chain_ascends(ids: Seq<u64>, i: int, j: int)
    requires
        forall|k: int| 0 <= k < ids.len() - 1 ==> #[trigger] ids[k] < ids[k + 1],
        0 <= i < j < ids.len(),
    ensures
        ids[i] < ids[j],
    decreases j - i,
{
    if i + 1 == j {
    } else {
        lemma_chain_ascends(ids, i, j - 1);
        assert(ids[j - 1] < ids[j]);
    }
}

impl Store {
    fn check_issues(&self) -> (r: bool)
        ensures
            r == self@.issues_wf(),
    {
        let ghost v = self@;
        let n = self.issues.len();
        let mut i: usize = 0;
        while i < n
            invariant
                v == self@,
                n == v.issues.len(),
                i <= n,
                forall|k: int|
                    #![trigger v.issues[k], v.issues[k + 1]]
                    0 <= k < i && k + 1 < n ==> v.issues[k].id < v.issues[k + 1].id,
                forall|k: int| 0 <= k < i ==> (#[trigger] v.issues[k].id) < v.next_issue_id,
                forall|k: int|
                    0 <= k < i ==> (((#[trigger] v.issues[k].closed_at) is Some) <==> v.issues[k].status
                        != Status::Open),
                forall|k: int|
                    0 <= k < i ==> match #[trigger] v.issues[k].parent_id {
                        Some(p) => p < v.issues[k].id,
                        None => true,
                    },
                forall|k: int|
                    0 <= k < i ==> match #[trigger] v.issues[k].parent_id {
                        Some(p) => has_issue_in(v.issues, p),
                        None => true,
                    },
            decreases n - i,
        {
            if i + 1 < n && self.issues[i].id >= self.issues[i + 1].id {
                proof {
                    if v.issues_wf() {
                        assert(v.issues[i as int].id < v.issues[i as int + 1].id);
                    }
                }
                return false;
            }
            if self.issues[i].id >= self.next_issue_id {
                proof {
                    if v.issues_wf() {
                        assert(v.issues[i as int].id < v.next_issue_id);
                    }
                }
                return false;
            }
            let has_closed_at = match self.issues[i].closed_at {
                Some(_) => true,
                None => false,
            };
            let is_open = match self.issues[i].status {
                Status::Open => true,
                _ => false,
            };
            if has_closed_at == is_open {
                proof {
                    if v.issues_wf() {
                        assert((v.issues[i as int].closed_at is Some) <==> v.issues[i as int].status
                            != Status::Open);
                    }
                }
                return false;
            }
            let parent_ok = match self.issues[i].parent_id {
                Some(p) => p < self.issues[i].id && self.find_issue_index(p).is_some(),
                None => true,
            };
            if !parent_ok {
                proof {
                    if v.issues_wf() {
                        assert(match v.issues[i as int].parent_id {
                            Some(p) => p < v.issues[i as int].id && has_issue_in(v.issues, p),
                            None => true,
                        });
                    }
                }
                return false;
            }
            i += 1;
        }
        proof {
            let ids = Seq::new(v.issues.len(), |k: int| v.issues[k].id);
            assert forall|k: int| 0 <= k < ids.len() - 1 implies #[trigger] ids[k] < ids[k + 1] by {
                assert(ids[k] == v.issues[k].id && ids[k + 1] == v.issues[k + 1].id);
            }
            lemma_adjacent_implies_sorted(ids);
            assert forall|a: int, b: int| 0 <= a < b < v.issues.len() implies v.issues[a].id
                < v.issues[b].id by {
                assert(ids[a] == v.issues[a].id && ids[b] == v.issues[b].id);
            }
            assert(issues_sorted(v.issues));
        }
        true
    }

    fn check_labels(&self) -> (r: bool)
        ensures
            r == self@.labels_wf(),
    {
        let ghost v = self@;
        let n = self.labels.len();
        let mut i: usize = 0;
        while i < n
            invariant
                v == self@,
                n == v.labels.len(),
                i <= n,
                forall|a: int|
                    0 <= a < i ==> has_issue_in(v.issues, (#[trigger] v.labels[a]).issue_id),
                forall|a: int, b: int|
                    0 <= a < b < n && a < i ==> !(v.labels[a].issue_id == v.labels[b].issue_id
                        && v.labels[a].name@ == v.labels[b].name@),
            decreases n - i,
        {
            if self.find_issue_index(self.labels[i].issue_id).is_none() {
                proof {
                    if v.labels_wf() {
                        assert(has_issue_in(v.issues, v.labels[i as int].issue_id));
                    }
                }
                return false;
            }
            let mut j: usize = i + 1;
            while j < n
                invariant
                    v == self@,
                    n == v.labels.len(),
                    i < j <= n,
                    forall|b: int|
                        i < b < j ==> !(v.labels[i as int].issue_id == (
                        #[trigger] v.labels[b]).issue_id && v.labels[i as int].name@
                            == v.labels[b].name@),
                decreases n - j,
            {
                if self.labels[i].issue_id == self.labels[j].issue_id && str_eq(
                    self.labels[i].name.as_str(),
                    self.labels[j].name.as_str(),
                ) {
                    proof {
                        if v.labels_wf() {
                            assert(!(v.labels[i as int].issue_id == v.labels[j as int].issue_id
                                && v.labels[i as int].name@ == v.labels[j as int].name@));
                        }
                    }
                    return false;
                }
                j += 1;
            }
            i += 1;
        }
        true
    }

    fn check_comments(&self) -> (r: bool)
        ensures
            r == self@.comments_wf(),
    {
        let ghost v = self@;
        let n = self.comments.len();
        let mut i: usize = 0;
        while i < n
            invariant
                v == self@,
                n == v.comments.len(),
                i <= n,
                forall|k: int|
                    #![trigger v.comments[k], v.comments[k + 1]]
                    0 <= k < i && k + 1 < n ==> v.comments[k].id < v.comments[k + 1].id,
                forall|k: int| 0 <= k < i ==> (#[trigger] v.comments[k].id) < v.next_comment_id,
                forall|k: int|
                    0 <= k < i ==> has_issue_in(v.issues, (#[trigger] v.comments[k]).issue_id),
            decreases n - i,
        {
            if i + 1 < n && self.comments[i].id >= self.comments[i + 1].id {
                proof {
                    if v.comments_wf() {
                        assert(v.comments[i as int].id < v.comments[i as int + 1].id);
                    }
                }
                return false;
            }
            if self.comments[i].id >= self.next_comment_id {
                proof {
                    if v.comments_wf() {
                        assert(v.comments[i as int].id < v.next_comment_id);
                    }
                }
                return false;
            }
            if self.find_issue_index(self.comments[i].issue_id).is_none() {
                proof {
                    if v.comments_wf() {
                        assert(has_issue_in(v.issues, v.comments[i as int].issue_id));
                    }
                }
                return false;
            }
            i += 1;
        }
        proof {
            let ids = Seq::new(v.comments.len(), |k: int| v.comments[k].id);
            assert forall|k: int| 0 <= k < ids.len() - 1 implies #[trigger] ids[k] < ids[k + 1] by {
                assert(ids[k] == v.comments[k].id && ids[k + 1] == v.comments[k + 1].id);
            }
            lemma_adjacent_implies_sorted(ids);
            assert forall|a: int, b: int| 0 <= a < b < v.comments.len() implies v.comments[a].id
                < v.comments[b].id by {
                assert(ids[a] == v.comments[a].id && ids[b] == v.comments[b].id);
            }
        }
        true
    }

    fn check_deps(&self) -> (r: bool)
        ensures
            r == self@.deps_wf(),
    {
        let ghost v = self@;
        let n = self.deps.len();
        let mut i: usize = 0;
        while i < n
            invariant
                v == self@,
                n == v.deps.len(),
                i <= n,
                forall|a: int|
                    0 <= a < i ==> (#[trigger] v.deps[a]).blocker_id != v.deps[a].blocked_id
                        && has_issue_in(v.issues, v.deps[a].blocker_id) && has_issue_in(
                        v.issues,
                        v.deps[a].blocked_id,
                    ),
                forall|a: int, b: int| 0 <= a < b < n && a < i ==> v.deps[a] != v.deps[b],
            decreases n - i,
        {
            if self.deps[i].blocker_id == self.deps[i].blocked_id {
                proof {
                    if v.deps_wf() {
                        assert(v.deps[i as int].blocker_id != v.deps[i as int].blocked_id);
                    }
                }
                return false;
            }
            if self.find_issue_index(self.deps[i].blocker_id).is_none() || self.find_issue_index(
                self.deps[i].blocked_id,
            ).is_none() {
                proof {
                    if v.deps_wf() {
                        assert(has_issue_in(v.issues, v.deps[i as int].blocker_id) && has_issue_in(
                            v.issues,
                            v.deps[i as int].blocked_id,
                        ));
                    }
                }
                return false;
            }
            let mut j: usize = i + 1;
            while j < n
                invariant
                    v == self@,
                    n == v.deps.len(),
                    i < j <= n,
                    forall|b: int| i < b < j ==> v.deps[i as int] != #[trigger] v.deps[b],
                decreases n - j,
            {
                if self.deps[i] == self.deps[j] {
                    proof {
                        if v.deps_wf() {
                            assert(v.deps[i as int] != v.deps[j as int]);
                        }
                    }
                    return false;
                }
                j += 1;
            }
            i += 1;
        }
        true
    }

    fn check_entries(&self) -> (r: bool)
        ensures
            r == self@.entries_wf(),
    {
        let ghost v = self@;
        let n = self.entries.len();
        let mut open_seen: bool = false;
        let ghost mut open_at: int = 0;
        let mut i: usize = 0;
        while i < n
            invariant
                v == self@,
                n == v.entries.len(),
                i <= n,
                forall|k: int|
                    #![trigger v.entries[k], v.entries[k + 1]]
                    0 <= k < i && k + 1 < n ==> v.entries[k].id < v.entries[k + 1].id,
                forall|k: int| 0 <= k < i ==> (#[trigger] v.entries[k].id) < v.next_entry_id,
                forall|k: int|
                    0 <= k < i ==> has_issue_in(v.issues, (#[trigger] v.entries[k]).issue_id),
                forall|k: int|
                    0 <= k < i ==> (((#[trigger] v.entries[k].ended_at) is None)
                        <==> v.entries[k].duration_seconds is None),
                open_seen ==> 0 <= open_at < i && (v.entries[open_at].ended_at is None),
                forall|k: int|
                    0 <= k < i && !(open_seen && k == open_at) ==> !((
                    #[trigger] v.entries[k].ended_at) is None),
            decreases n - i,
        {
            if i + 1 < n && self.entries[i].id >= self.entries[i + 1].id {
                proof {
                    if v.entries_wf() {
                        assert(v.entries[i as int].id < v.entries[i as int + 1].id);
                    }
                }
                return false;
            }
            if self.entries[i].id >= self.next_entry_id {
                proof {
                    if v.entries_wf() {
                        assert(v.entries[i as int].id < v.next_entry_id);
                    }
                }
                return false;
            }
            if self.find_issue_index(self.entries[i].issue_id).is_none() {
                proof {
                    if v.entries_wf() {
                        assert(has_issue_in(v.issues, v.entries[i as int].issue_id));
                    }
                }
                return false;
            }
            let is_open_entry = match self.entries[i].ended_at {
                Some(_) => false,
                None => true,
            };
            let lacks_duration = match self.entries[i].duration_seconds {
                Some(_) => false,
                None => true,
            };
            if is_open_entry != lacks_duration {
                proof {
                    if v.entries_wf() {
                        assert((v.entries[i as int].ended_at is None) <==> (
                        v.entries[i as int].duration_seconds is None));
                    }
                }
                return false;
            }
            if is_open_entry {
                if open_seen {
                    proof {
                        if v.entries_wf() {
                            assert(!((v.entries[open_at].ended_at is None) && (
                            v.entries[i as int].ended_at is None)));
                        }
                    }
                    return false;
                }
                open_seen = true;
                proof {
                    open_at = i as int;
                }
            }
            i += 1;
        }
        proof {
            let ids = Seq::new(v.entries.len(), |k: int| v.entries[k].id);
            assert forall|k: int| 0 <= k < ids.len() - 1 implies #[trigger] ids[k] < ids[k + 1] by {
                assert(ids[k] == v.entries[k].id && ids[k + 1] == v.entries[k + 1].id);
            }
            lemma_adjacent_implies_sorted(ids);
            assert forall|a: int, b: int| 0 <= a < b < v.entries.len() implies v.entries[a].id
                < v.entries[b].id by {
                assert(ids[a] == v.entries[a].id && ids[b] == v.entries[b].id);
            }
            assert forall|a: int, b: int| 0 <= a < b < v.entries.len() implies !((
            v.entries[a].ended_at is None) && (v.entries[b].ended_at is None)) by {
                if (v.entries[a].ended_at is None) && (v.entries[b].ended_at is None) {
                    assert(open_seen && a == open_at && b == open_at);
                }
            }
        }
        true
    }

    fn check_sessions(&self) -> (r: bool)
        ensures
            r == self@.sessions_wf(),
    {
        let ghost v = self@;
        let n = self.sessions.len();
        let mut i: usize = 0;
        while i < n
            invariant
                v == self@,
                n == v.sessions.len(),
                i <= n,
                forall|k: int|
                    #![trigger v.sessions[k], v.sessions[k + 1]]
                    0 <= k < i && k + 1 < n ==> v.sessions[k].id < v.sessions[k + 1].id,
                forall|k: int| 0 <= k < i ==> (#[trigger] v.sessions[k].id) < v.next_session_id,
                forall|k: int|
                    0 <= k < i ==> match (#[trigger] v.sessions[k]).active_issue_id {
                        Some(a) => has_issue_in(v.issues, a),
                        None => true,
                    },
            decreases n - i,
        {
            if i + 1 < n && self.sessions[i].id >= self.sessions[i + 1].id {
                proof {
                    if v.sessions_wf() {
                        assert(v.sessions[i as int].id < v.sessions[i as int + 1].id);
                    }
                }
                return false;
            }
            if self.sessions[i].id >= self.next_session_id {
                proof {
                    if v.sessions_wf() {
                        assert(v.sessions[i as int].id < v.next_session_id);
                    }
                }
                return false;
            }
            let ref_ok = match self.sessions[i].active_issue_id {
                Some(a) => self.find_issue_index(a).is_some(),
                None => true,
            };
            if !ref_ok {
                proof {
                    if v.sessions_wf() {
                        assert(match v.sessions[i as int].active_issue_id {
                            Some(a) => has_issue_in(v.issues, a),
                            None => true,
                        });
                    }
                }
                return false;
            }
            i += 1;
        }
        proof {
            let ids = Seq::new(v.sessions.len(), |k: int| v.sessions[k].id);
            assert forall|k: int| 0 <= k < ids.len() - 1 implies #[trigger] ids[k] < ids[k + 1] by {
                assert(ids[k] == v.sessions[k].id && ids[k + 1] == v.sessions[k + 1].id);
            }
            lemma_adjacent_implies_sorted(ids);
            assert forall|a: int, b: int| 0 <= a < b < v.sessions.len() implies v.sessions[a].id
                < v.sessions[b].id by {
                assert(ids[a] == v.sessions[a].id && ids[b] == v.sessions[b].id);
            }
        }
        true
    }

    fn check_milestones(&self) -> (r: bool)
        ensures
            r == self@.milestones_wf(),
    {
        let ghost v = self@;
        let n = self.milestones.len();
        let mut i: usize = 0;
        while i < n
            invariant
                v == self@,
                n == v.milestones.len(),
                i <= n,
                forall|k: int|
                    #![trigger v.milestones[k], v.milestones[k + 1]]
                    0 <= k < i && k + 1 < n ==> v.milestones[k].id < v.milestones[k + 1].id,
                forall|k: int| 0 <= k < i ==> (#[trigger] v.milestones[k].id) < v.next_milestone_id,
                forall|k: int|
                    0 <= k < i ==> (((#[trigger] v.milestones[k].closed_at) is Some)
                        <==> v.milestones[k].status == crate::model::MilestoneStatus::Closed),
            decreases n - i,
        {
            if i + 1 < n && self.milestones[i].id >= self.milestones[i + 1].id {
                proof {
                    if v.milestones_wf() {
                        assert(v.milestones[i as int].id < v.milestones[i as int + 1].id);
                    }
                }
                return false;
            }
            if self.milestones[i].id >= self.next_milestone_id {
                proof {
                    if v.milestones_wf() {
                        assert(v.milestones[i as int].id < v.next_milestone_id);
                    }
                }
                return false;
            }
            let has_closed_at = match self.milestones[i].closed_at {
                Some(_) => true,
                None => false,
            };
            let is_closed = match self.milestones[i].status {
                crate::model::MilestoneStatus::Closed => true,
                crate::model::MilestoneStatus::Open => false,
            };
            if has_closed_at != is_closed {
                proof {
                    if v.milestones_wf() {
                        assert((v.milestones[i as int].closed_at is Some) <==> v.milestones[
                            i as int
                        ].status == crate::model::MilestoneStatus::Closed);
                    }
                }
                return false;
            }
            i += 1;
        }
        proof {
            let ids = Seq::new(v.milestones.len(), |k: int| v.milestones[k].id);
            assert forall|k: int| 0 <= k < ids.len() - 1 implies #[trigger] ids[k] < ids[k + 1] by {
                assert(ids[k] == v.milestones[k].id && ids[k + 1] == v.milestones[k + 1].id);
            }
            lemma_adjacent_implies_sorted(ids);
            assert forall|a: int, b: int| 0 <= a < b < v.milestones.len() implies v.milestones[
                a
            ].id < v.milestones[b].id by {
                assert(ids[a] == v.milestones[a].id && ids[b] == v.milestones[b].id);
            }
        }
        true
    }

    fn check_members(&self) -> (r: bool)
        ensures
            r == self@.members_wf(),
    {
        let ghost v = self@;
        let n = self.members.len();
        let mut i: usize = 0;
        while i < n
            invariant
                v == self@,
                n == v.members.len(),
                i <= n,
                forall|a: int|
                    0 <= a < i ==> v.has_milestone((#[trigger] v.members[a]).milestone_id)
                        && has_issue_in(v.issues, v.members[a].issue_id),
                forall|a: int, b: int| 0 <= a < b < n && a < i ==> v.members[a] != v.members[b],
            decreases n - i,
        {
            if self.find_milestone_index(self.members[i].milestone_id).is_none()
                || self.find_issue_index(self.members[i].issue_id).is_none() {
                proof {
                    if v.members_wf() {
                        assert(v.has_milestone(v.members[i as int].milestone_id) && has_issue_in(
                            v.issues,
                            v.members[i as int].issue_id,
                        ));
                    }
                }
                return false;
            }
            let mut j: usize = i + 1;
            while j < n
                invariant
                    v == self@,
                    n == v.members.len(),
                    i < j <= n,
                    forall|b: int| i < b < j ==> v.members[i as int] != #[trigger] v.members[b],
                decreases n - j,
            {
                if self.members[i] == self.members[j] {
                    proof {
                        if v.members_wf() {
                            assert(v.members[i as int] != v.members[j as int]);
                        }
                    }
                    return false;
                }
                j += 1;
            }
            i += 1;
        }
        true
    }

    /// Decides the whole store invariant: `true` exactly when this value
    /// satisfies [`crate::store::StoreV::wf`]. Meant for callers that
    /// rebuilt a store from an untrusted source and must establish the
    /// invariant before using the operations that require it.
    pub fn check_wf(&self) -> (r: bool)
        ensures
            r == self@.wf(),
    {
        self.check_issues() && self.check_labels() && self.check_comments() && self.check_deps()
            && self.check_entries() && self.check_sessions() && self.check_milestones()
            && self.check_members()
    }
}

} // verus!
