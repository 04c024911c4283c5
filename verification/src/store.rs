//! The store: one value holding the whole issue graph — issues with their
//! hierarchy, labels, comments, dependency edges, time entries, sessions and
//! milestones — with the well-formedness invariant every operation preserves.
//!
//! Callers pass the current time in as seconds; the store itself never reads
//! a clock, so every operation is a function of its arguments.

use vstd::prelude::*;
use crate::errors::StoreError;
use crate::model::{
    Comment, Dep, Issue, Label, Milestone, MilestoneMember, MilestoneStatus, Priority, Session,
    Status, TimeEntry,
};

verus! {

/// The mathematical state of a store: the rows of each relation in insertion
/// order, and the next id each id-assigning relation will use.
pub ghost struct StoreV {
    pub issues: Seq<Issue>,
    pub labels: Seq<Label>,
    pub comments: Seq<Comment>,
    pub deps: Seq<Dep>,
    pub entries: Seq<TimeEntry>,
    pub sessions: Seq<Session>,
    pub milestones: Seq<Milestone>,
    pub members: Seq<MilestoneMember>,
    pub next_issue_id: u64,
    pub next_comment_id: u64,
    pub next_entry_id: u64,
    pub next_session_id: u64,
    pub next_milestone_id: u64,
}

/// Whether some issue in the sequence has this id.
pub open spec fn has_issue_in(s: Seq<Issue>, id: u64) -> bool {
    exists|i: int| 0 <= i < s.len() && s[i].id == id
}

/// The index of the issue with this id; meaningful when `has_issue_in`
/// holds of a strictly sorted sequence.
pub open spec fn idx_of(s: Seq<Issue>, id: u64) -> int {
    choose|i: int| 0 <= i < s.len() && s[i].id == id
}

/// The issue with this id.
pub open spec fn issue_in(s: Seq<Issue>, id: u64) -> Issue {
    s[idx_of(s, id)]
}

/// Issue ids strictly ascending: creation order, each id used once.
pub open spec fn issues_sorted(s: Seq<Issue>) -> bool {
    forall|i: int, j: int| 0 <= i < j < s.len() ==> s[i].id < s[j].id
}

impl StoreV {
    /// Whether an issue with this id exists.
    pub open spec fn has_issue(self, id: u64) -> bool {
        has_issue_in(self.issues, id)
    }

    /// The issue with this id.
    pub open spec fn issue(self, id: u64) -> Issue {
        issue_in(self.issues, id)
    }

    /// Whether the issue exists and is open.
    pub open spec fn is_open(self, id: u64) -> bool {
        self.has_issue(id) && self.issue(id).status == Status::Open
    }

    /// Whether the edge `blocker -> blocked` exists.
    pub open spec fn dep_exists(self, blocked: u64, blocker: u64) -> bool {
        exists|i: int|
            0 <= i < self.deps.len() && self.deps[i] == (Dep {
                blocker_id: blocker,
                blocked_id: blocked,
            })
    }

    /// Whether some open issue blocks this one.
    pub open spec fn has_open_blocker(self, id: u64) -> bool {
        exists|b: u64| #[trigger] self.dep_exists(id, b) && self.is_open(b)
    }

    /// The readiness predicate: open, and every blocker is no longer open.
    pub open spec fn is_ready(self, id: u64) -> bool {
        self.is_open(id) && !self.has_open_blocker(id)
    }

    /// Whether a label row with this issue and name exists.
    pub open spec fn has_label(self, issue_id: u64, name: Seq<char>) -> bool {
        exists|i: int|
            0 <= i < self.labels.len() && self.labels[i].issue_id == issue_id
                && self.labels[i].name@ == name
    }

    /// The issues table: ids unique and ascending, below the id counter;
    /// `closed_at` set exactly while not open; a parent precedes its child
    /// and exists.
    pub open spec fn issues_wf(self) -> bool {
        &&& issues_sorted(self.issues)
        &&& forall|i: int|
            0 <= i < self.issues.len() ==> #[trigger] self.issues[i].id < self.next_issue_id
        &&& forall|i: int|
            0 <= i < self.issues.len() ==> ((#[trigger] self.issues[i].closed_at) is Some
                <==> self.issues[i].status != Status::Open)
        &&& forall|i: int|
            0 <= i < self.issues.len() ==> match #[trigger] self.issues[i].parent_id {
                Some(p) => p < self.issues[i].id && has_issue_in(self.issues, p),
                None => true,
            }
    }

    /// The label rows: unique pairs, each on an existing issue.
    pub open spec fn labels_wf(self) -> bool {
        &&& forall|i: int|
            0 <= i < self.labels.len() ==> has_issue_in(
                self.issues,
                #[trigger] self.labels[i].issue_id,
            )
        &&& forall|i: int, j: int|
            0 <= i < j < self.labels.len() ==> !(self.labels[i].issue_id == self.labels[j].issue_id
                && self.labels[i].name@ == self.labels[j].name@)
    }

    /// The comments: ids unique and ascending (creation order), below the
    /// counter, each on an existing issue.
    pub open spec fn comments_wf(self) -> bool {
        &&& forall|i: int, j: int|
            0 <= i < j < self.comments.len() ==> self.comments[i].id < self.comments[j].id
        &&& forall|i: int|
            0 <= i < self.comments.len() ==> #[trigger] self.comments[i].id < self.next_comment_id
        &&& forall|i: int|
            0 <= i < self.comments.len() ==> has_issue_in(
                self.issues,
                #[trigger] self.comments[i].issue_id,
            )
    }

    /// The dependency edges: unique, no self-loop, both ends existing.
    pub open spec fn deps_wf(self) -> bool {
        &&& forall|i: int, j: int| 0 <= i < j < self.deps.len() ==> self.deps[i] != self.deps[j]
        &&& forall|i: int|
            0 <= i < self.deps.len() ==> (#[trigger] self.deps[i]).blocker_id != self.deps[i].blocked_id
        &&& forall|i: int|
            0 <= i < self.deps.len() ==> has_issue_in(self.issues, (#[trigger] self.deps[i]).blocker_id)
                && has_issue_in(self.issues, self.deps[i].blocked_id)
    }

    /// The time entries: ids unique and ascending, below the counter, each
    /// on an existing issue; at most one entry open store-wide; a closed
    /// entry carries its duration, an open one none.
    pub open spec fn entries_wf(self) -> bool {
        &&& forall|i: int, j: int|
            0 <= i < j < self.entries.len() ==> self.entries[i].id < self.entries[j].id
        &&& forall|i: int|
            0 <= i < self.entries.len() ==> #[trigger] self.entries[i].id < self.next_entry_id
        &&& forall|i: int|
            0 <= i < self.entries.len() ==> has_issue_in(
                self.issues,
                #[trigger] self.entries[i].issue_id,
            )
        &&& forall|i: int, j: int|
            0 <= i < j < self.entries.len() ==> !((self.entries[i].ended_at is None) && (
            self.entries[j].ended_at is None))
        &&& forall|i: int|
            0 <= i < self.entries.len() ==> ((#[trigger] self.entries[i].ended_at) is None
                <==> self.entries[i].duration_seconds is None)
    }

    /// The sessions: ids unique and ascending, below the counter; an active
    /// issue reference points at an existing issue.
    pub open spec fn sessions_wf(self) -> bool {
        &&& forall|i: int, j: int|
            0 <= i < j < self.sessions.len() ==> self.sessions[i].id < self.sessions[j].id
        &&& forall|i: int|
            0 <= i < self.sessions.len() ==> #[trigger] self.sessions[i].id < self.next_session_id
        &&& forall|i: int|
            0 <= i < self.sessions.len() ==> match (#[trigger] self.sessions[i]).active_issue_id {
                Some(a) => has_issue_in(self.issues, a),
                None => true,
            }
    }

    /// The milestones: ids unique and ascending, below the counter;
    /// `closed_at` set exactly while closed.
    pub open spec fn milestones_wf(self) -> bool {
        &&& forall|i: int, j: int|
            0 <= i < j < self.milestones.len() ==> self.milestones[i].id < self.milestones[j].id
        &&& forall|i: int|
            0 <= i < self.milestones.len() ==> #[trigger] self.milestones[i].id
                < self.next_milestone_id
        &&& forall|i: int|
            0 <= i < self.milestones.len() ==> ((#[trigger] self.milestones[i].closed_at) is Some
                <==> self.milestones[i].status == MilestoneStatus::Closed)
    }

    /// Whether some milestone in the sequence has this id.
    pub open spec fn has_milestone(self, id: u64) -> bool {
        exists|i: int| 0 <= i < self.milestones.len() && self.milestones[i].id == id
    }

    /// Whether this issue is a member of this milestone.
    pub open spec fn member_exists(self, milestone_id: u64, issue_id: u64) -> bool {
        exists|i: int|
            0 <= i < self.members.len() && self.members[i] == (MilestoneMember {
                milestone_id,
                issue_id,
            })
    }

    /// The membership rows: unique pairs, both ends existing.
    pub open spec fn members_wf(self) -> bool {
        &&& forall|i: int, j: int|
            0 <= i < j < self.members.len() ==> self.members[i] != self.members[j]
        &&& forall|i: int|
            0 <= i < self.members.len() ==> self.has_milestone(
                (#[trigger] self.members[i]).milestone_id,
            ) && has_issue_in(self.issues, self.members[i].issue_id)
    }

    /// The whole invariant.
    pub open spec fn wf(self) -> bool {
        &&& self.issues_wf()
        &&& self.labels_wf()
        &&& self.comments_wf()
        &&& self.deps_wf()
        &&& self.entries_wf()
        &&& self.sessions_wf()
        &&& self.milestones_wf()
        &&& self.members_wf()
    }
}

/// In a strictly sorted issue sequence, an id determines its index.
pub proof fn lemma_sorted_index_unique(s: Seq<Issue>, i: int, j: int)
    requires
        issues_sorted(s),
        0 <= i < s.len(),
        0 <= j < s.len(),
        s[i].id == s[j].id,
    ensures
        i == j,
{
    if i < j {
        assert(s[i].id < s[j].id);
    }
    if j < i {
        assert(s[j].id < s[i].id);
    }
}

/// The issue graph and state-machine engine: every mutation preserves
/// [`StoreV::wf`], stated over the view [`StoreV`].
pub struct Store {
    pub issues: Vec<Issue>,
    pub labels: Vec<Label>,
    pub comments: Vec<Comment>,
    pub deps: Vec<Dep>,
    pub entries: Vec<TimeEntry>,
    pub sessions: Vec<Session>,
    pub milestones: Vec<Milestone>,
    pub members: Vec<MilestoneMember>,
    pub next_issue_id: u64,
    pub next_comment_id: u64,
    pub next_entry_id: u64,
    pub next_session_id: u64,
    pub next_milestone_id: u64,
}

impl View for Store {
    type V = StoreV;

    open spec fn view(&self) -> StoreV {
        StoreV {
            issues: self.issues@,
            labels: self.labels@,
            comments: self.comments@,
            deps: self.deps@,
            entries: self.entries@,
            sessions: self.sessions@,
            milestones: self.milestones@,
            members: self.members@,
            next_issue_id: self.next_issue_id,
            next_comment_id: self.next_comment_id,
            next_entry_id: self.next_entry_id,
            next_session_id: self.next_session_id,
            next_milestone_id: self.next_milestone_id,
        }
    }
}

impl Store {
    /// A fresh, empty store. Ids are assigned from 1 upward, as a fresh
    /// storage file would.
    pub fn new() -> (r: Store)
        ensures
            r@.wf(),
            r@.issues.len() == 0,
            r@.labels.len() == 0,
            r@.comments.len() == 0,
            r@.deps.len() == 0,
            r@.entries.len() == 0,
            r@.sessions.len() == 0,
            r@.milestones.len() == 0,
            r@.members.len() == 0,
            r@.next_issue_id == 1,
            r@.next_comment_id == 1,
            r@.next_entry_id == 1,
            r@.next_session_id == 1,
            r@.next_milestone_id == 1,
    {
        Store {
            issues: Vec::new(),
            labels: Vec::new(),
            comments: Vec::new(),
            deps: Vec::new(),
            entries: Vec::new(),
            sessions: Vec::new(),
            milestones: Vec::new(),
            members: Vec::new(),
            next_issue_id: 1,
            next_comment_id: 1,
            next_entry_id: 1,
            next_session_id: 1,
            next_milestone_id: 1,
        }
    }

    /// The position of the issue with this id, if any.
    pub(crate) fn find_issue_index(&self, id: u64) -> (r: Option<usize>)
        ensures
            match r {
                Some(i) => i < self@.issues.len() && self@.issues[i as int].id == id,
                None => !self@.has_issue(id),
            },
    {
        let mut i: usize = 0;
        while i < self.issues.len()
            invariant
                i <= self@.issues.len(),
                forall|j: int| 0 <= j < i ==> self@.issues[j].id != id,
            decreases self@.issues.len() - i,
        {
            if self.issues[i].id == id {
                return Some(i);
            }
            i += 1;
        }
        None
    }

    /// A read-only view of the issue with this id.
    pub fn get_issue(&self, id: u64) -> (r: Option<&Issue>)
        requires
            self@.wf(),
        ensures
            match r {
                Some(iss) => self@.has_issue(id) && *iss == self@.issue(id),
                None => !self@.has_issue(id),
            },
    {
        match self.find_issue_index(id) {
            Some(i) => {
                let iss = &self.issues[i];
                proof {
                    lemma_sorted_index_unique(self@.issues, i as int, idx_of(self@.issues, id));
                }
                Some(iss)
            },
            None => None,
        }
    }

    /// Creates an issue, open, with both timestamps at `now`, under the
    /// given parent if any. The new id is the id counter; only an exhausted
    /// id space refuses.
    pub(crate) fn insert_issue(
        &mut self,
        title: String,
        description: Option<String>,
        priority: Priority,
        parent_id: Option<u64>,
        now: u64,
    ) -> (r: Result<u64, StoreError>)
        requires
            old(self)@.wf(),
            match parent_id {
                Some(p) => old(self)@.has_issue(p),
                None => true,
            },
        ensures
            final(self)@.wf(),
            match r {
                Ok(id) => {
                    &&& old(self)@.next_issue_id < u64::MAX
                    &&& id == old(self)@.next_issue_id
                    &&& final(self)@ == (StoreV {
                        issues: old(self)@.issues.push(
                            Issue {
                                id,
                                title,
                                description,
                                status: Status::Open,
                                priority,
                                parent_id,
                                created_at: now,
                                updated_at: now,
                                closed_at: None,
                            },
                        ),
                        next_issue_id: (id + 1) as u64,
                        ..old(self)@
                    })
                },
                Err(e) => {
                    &&& e == StoreError::StorageFull
                    &&& old(self)@.next_issue_id == u64::MAX
                    &&& final(self)@ == old(self)@
                },
            },
    {
        if self.next_issue_id == u64::MAX {
            return Err(StoreError::StorageFull);
        }
        let id = self.next_issue_id;
        let iss = Issue {
            id,
            title,
            description,
            status: Status::Open,
            priority,
            parent_id,
            created_at: now,
            updated_at: now,
            closed_at: None,
        };
        self.issues.push(iss);
        self.next_issue_id = id + 1;
        proof {
            let old_issues = old(self)@.issues;
            let new_issues = self@.issues;
            assert forall|x: u64| has_issue_in(old_issues, x) implies has_issue_in(
                new_issues,
                x,
            ) by {
                let w = choose|i: int| 0 <= i < old_issues.len() && old_issues[i].id == x;
                assert(new_issues[w].id == x);
            }
            assert(has_issue_in(new_issues, id)) by {
                assert(new_issues[new_issues.len() - 1].id == id);
            }
        }
        Ok(id)
    }
}

} // verus!
