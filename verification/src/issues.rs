//! Issue lifecycle and repository operations: creation, patch updates,
//! close / reopen, archive / unarchive.

use vstd::prelude::*;
use crate::errors::StoreError;
use crate::model::{
    is_valid_priority, parse_priority, priority_of_name, Issue, Priority, Status,
};
use crate::store::{has_issue_in, idx_of, issues_sorted, lemma_sorted_index_unique, Store, StoreV};

verus! {

/// Replacing one issue by another with the same id and parent keeps the
/// table sorted, keeps the set of ids, and — when the replacement satisfies
/// the `closed_at` coupling — keeps the whole invariant.
pub proof fn lemma_issue_update_wf(pre: StoreV, post: StoreV, i: int, x: Issue)
    requires
        pre.wf(),
        0 <= i < pre.issues.len(),
        x.id == pre.issues[i].id,
        x.parent_id == pre.issues[i].parent_id,
        (x.closed_at is Some) <==> x.status != Status::Open,
        post == (StoreV { issues: pre.issues.update(i, x), ..pre }),
    ensures
        post.wf(),
        forall|id: u64| has_issue_in(post.issues, id) == has_issue_in(pre.issues, id),
{
    let s = pre.issues;
    let t = post.issues;
    assert(forall|k: int| 0 <= k < t.len() ==> #[trigger] t[k].id == s[k].id);
    assert forall|id: u64| has_issue_in(t, id) == has_issue_in(s, id) by {
        if has_issue_in(s, id) {
            let w = choose|k: int| 0 <= k < s.len() && s[k].id == id;
            assert(t[w].id == id);
        }
        if has_issue_in(t, id) {
            let w = choose|k: int| 0 <= k < t.len() && t[k].id == id;
            assert(s[w].id == id);
        }
    }
    assert(post.issues_wf()) by {
        assert forall|k: int| 0 <= k < t.len() implies match #[trigger] t[k].parent_id {
            Some(p) => p < t[k].id && has_issue_in(t, p),
            None => true,
        } by {
            if k != i {
                assert(t[k] == s[k]);
            }
            match t[k].parent_id {
                Some(p) => {
                    assert(has_issue_in(s, p));
                },
                None => {},
            }
        }
    }
    assert(post.labels_wf());
    assert(post.comments_wf());
    assert(post.deps_wf());
    assert(post.entries_wf());
    assert(post.sessions_wf());
    assert(post.milestones_wf());
    assert(post.members_wf());
}

/// The store after closing an issue: status closed, `closed_at` and
/// `updated_at` at `now`, nothing else touched.
pub open spec fn close_transition(v: StoreV, id: u64, now: u64) -> StoreV {
    StoreV {
        issues: v.issues.update(
            idx_of(v.issues, id),
            Issue { status: Status::Closed, closed_at: Some(now), updated_at: now, ..v.issue(id) },
        ),
        ..v
    }
}

/// The store after reopening a closed issue: status open again,
/// `closed_at` cleared, `updated_at` at `now`, nothing else touched.
pub open spec fn reopen_transition(v: StoreV, id: u64, now: u64) -> StoreV {
    StoreV {
        issues: v.issues.update(
            idx_of(v.issues, id),
            Issue { status: Status::Open, closed_at: None, updated_at: now, ..v.issue(id) },
        ),
        ..v
    }
}

impl Store {
    /// Creates a top-level issue: open, both timestamps at `now`.
    /// Fails only when the id space is exhausted.
    pub fn create_issue(
        &mut self,
        title: String,
        description: Option<String>,
        priority: Priority,
        now: u64,
    ) -> (r: Result<u64, StoreError>)
        requires
            old(self)@.wf(),
        ensures
            final(self)@.wf(),
            match r {
                Ok(id) => {
                    &&& old(self)@.next_issue_id < u64::MAX
                    &&& id == old(self)@.next_issue_id
                    &&& final(self)@ == (StoreV {
                        issues: old(self)@.issues.push(
                            Issue {
                                id,
                                title,
                                description,
                                status: Status::Open,
                                priority,
                                parent_id: None,
                                created_at: now,
                                updated_at: now,
                                closed_at: None,
                            },
                        ),
                        next_issue_id: (id + 1) as u64,
                        ..old(self)@
                    })
                },
                Err(e) => {
                    &&& e == StoreError::StorageFull
                    &&& old(self)@.next_issue_id == u64::MAX
                    &&& final(self)@ == old(self)@
                },
            },
    {
        self.insert_issue(title, description, priority, None, now)
    }

    /// Creates a subissue under an existing parent: open, both timestamps
    /// at `now`. An absent parent is reported as such.
    pub fn create_subissue(
        &mut self,
        parent_id: u64,
        title: String,
        description: Option<String>,
        priority: Priority,
        now: u64,
    ) -> (r: Result<u64, StoreError>)
        requires
            old(self)@.wf(),
        ensures
            final(self)@.wf(),
            match r {
                Ok(id) => {
                    &&& old(self)@.has_issue(parent_id)
                    &&& old(self)@.next_issue_id < u64::MAX
                    &&& id == old(self)@.next_issue_id
                    &&& final(self)@ == (StoreV {
                        issues: old(self)@.issues.push(
                            Issue {
                                id,
                                title,
                                description,
                                status: Status::Open,
                                priority,
                                parent_id: Some(parent_id),
                                created_at: now,
                                updated_at: now,
                                closed_at: None,
                            },
                        ),
                        next_issue_id: (id + 1) as u64,
                        ..old(self)@
                    })
                },
                Err(e) => {
                    &&& final(self)@ == old(self)@
                    &&& (match e {
                        StoreError::ParentNotFound { id: p } => p == parent_id && !old(
                            self,
                        )@.has_issue(parent_id),
                        StoreError::StorageFull => old(self)@.has_issue(parent_id) && old(
                            self,
                        )@.next_issue_id == u64::MAX,
                        _ => false,
                    })
                },
            },
    {
        match self.find_issue_index(parent_id) {
            Some(_) => self.insert_issue(title, description, priority, Some(parent_id), now),
            None => Err(StoreError::ParentNotFound { id: parent_id }),
        }
    }

    /// Creation as the command layer performs it: the priority arrives as a
    /// string and is validated against the whitelist before anything is
    /// stored.
    pub fn create_issue_checked(
        &mut self,
        title: String,
        description: Option<String>,
        priority: &str,
        now: u64,
    ) -> (r: Result<u64, StoreError>)
        requires
            old(self)@.wf(),
        ensures
            final(self)@.wf(),
            match r {
                Ok(id) => {
                    &&& is_valid_priority(priority@)
                    &&& old(self)@.next_issue_id < u64::MAX
                    &&& id == old(self)@.next_issue_id
                    &&& final(self)@ == (StoreV {
                        issues: old(self)@.issues.push(
                            Issue {
                                id,
                                title,
                                description,
                                status: Status::Open,
                                priority: priority_of_name(priority@),
                                parent_id: None,
                                created_at: now,
                                updated_at: now,
                                closed_at: None,
                            },
                        ),
                        next_issue_id: (id + 1) as u64,
                        ..old(self)@
                    })
                },
                Err(e) => {
                    &&& final(self)@ == old(self)@
                    &&& (match e {
                        StoreError::InvalidPriority { given } => given@ == priority@
                            && !is_valid_priority(priority@),
                        StoreError::StorageFull => is_valid_priority(priority@) && old(
                            self,
                        )@.next_issue_id == u64::MAX,
                        _ => false,
                    })
                },
            },
    {
        match parse_priority(priority) {
            Some(p) => self.create_issue(title, description, p, now),
            None => Err(StoreError::InvalidPriority { given: String::from_str(priority) }),
        }
    }

    /// Subissue creation as the command layer performs it: the priority
    /// string is validated first, then the parent must exist.
    pub fn create_subissue_checked(
        &mut self,
        parent_id: u64,
        title: String,
        description: Option<String>,
        priority: &str,
        now: u64,
    ) -> (r: Result<u64, StoreError>)
        requires
            old(self)@.wf(),
        ensures
            final(self)@.wf(),
            match r {
                Ok(id) => {
                    &&& is_valid_priority(priority@)
                    &&& old(self)@.has_issue(parent_id)
                    &&& old(self)@.next_issue_id < u64::MAX
                    &&& id == old(self)@.next_issue_id
                    &&& final(self)@ == (StoreV {
                        issues: old(self)@.issues.push(
                            Issue {
                                id,
                                title,
                                description,
                                status: Status::Open,
                                priority: priority_of_name(priority@),
                                parent_id: Some(parent_id),
                                created_at: now,
                                updated_at: now,
                                closed_at: None,
                            },
                        ),
                        next_issue_id: (id + 1) as u64,
                        ..old(self)@
                    })
                },
                Err(e) => {
                    &&& final(self)@ == old(self)@
                    &&& (match e {
                        StoreError::InvalidPriority { given } => given@ == priority@
                            && !is_valid_priority(priority@),
                        StoreError::ParentNotFound { id: p } => is_valid_priority(priority@) && p
                            == parent_id && !old(self)@.has_issue(parent_id),
                        StoreError::StorageFull => is_valid_priority(priority@) && old(
                            self,
                        )@.has_issue(parent_id) && old(self)@.next_issue_id == u64::MAX,
                        _ => false,
                    })
                },
            },
    {
        match parse_priority(priority) {
            Some(p) => self.create_subissue(parent_id, title, description, p, now),
            None => Err(StoreError::InvalidPriority { given: String::from_str(priority) }),
        }
    }

    /// Patch update: only the supplied fields change, `updated_at` is
    /// always refreshed; `false` when the id is absent.
    pub fn update_issue(
        &mut self,
        id: u64,
        title: Option<String>,
        description: Option<String>,
        priority: Option<Priority>,
        now: u64,
    ) -> (r: bool)
        requires
            old(self)@.wf(),
        ensures
            final(self)@.wf(),
            r == old(self)@.has_issue(id),
            r ==> final(self)@ == (StoreV {
                issues: old(self)@.issues.update(
                    idx_of(old(self)@.issues, id),
                    Issue {
                        title: match title {
                            Some(t) => t,
                            None => old(self)@.issue(id).title,
                        },
                        description: match description {
                            Some(d) => Some(d),
                            None => old(self)@.issue(id).description,
                        },
                        priority: match priority {
                            Some(p) => p,
                            None => old(self)@.issue(id).priority,
                        },
                        updated_at: now,
                        ..old(self)@.issue(id)
                    },
                ),
                ..old(self)@
            }),
            !r ==> final(self)@ == old(self)@,
    {
        match self.find_issue_index(id) {
            Some(i) => {
                proof {
                    lemma_sorted_index_unique(self@.issues, i as int, idx_of(self@.issues, id));
                }
                let mut iss = self.issues[i].duplicate();
                match title {
                    Some(t) => {
                        iss.title = t;
                    },
                    None => {},
                }
                match description {
                    Some(d) => {
                        iss.description = Some(d);
                    },
                    None => {},
                }
                match priority {
                    Some(p) => {
                        iss.priority = p;
                    },
                    None => {},
                }
                iss.updated_at = now;
                let ghost x = iss;
                self.issues.set(i, iss);
                proof {
                    lemma_issue_update_wf(old(self)@, self@, i as int, x);
                }
                true
            },
            None => false,
        }
    }

    /// Patch update as the command layer performs it: supplying no field at
    /// all is an error, an invalid priority string is rejected before
    /// anything changes, and an absent id is reported as such.
    pub fn update_issue_checked(
        &mut self,
        id: u64,
        title: Option<String>,
        description: Option<String>,
        priority: Option<String>,
        now: u64,
    ) -> (r: Result<(), StoreError>)
        requires
            old(self)@.wf(),
        ensures
            final(self)@.wf(),
            match r {
                Ok(_) => {
                    &&& !(title is None && description is None && priority is None)
                    &&& (match priority {
                        Some(p) => is_valid_priority(p@),
                        None => true,
                    })
                    &&& old(self)@.has_issue(id)
                    &&& final(self)@ == (StoreV {
                        issues: old(self)@.issues.update(
                            idx_of(old(self)@.issues, id),
                            Issue {
                                title: match title {
                                    Some(t) => t,
                                    None => old(self)@.issue(id).title,
                                },
                                description: match description {
                                    Some(d) => Some(d),
                                    None => old(self)@.issue(id).description,
                                },
                                priority: match priority {
                                    Some(p) => priority_of_name(p@),
                                    None => old(self)@.issue(id).priority,
                                },
                                updated_at: now,
                                ..old(self)@.issue(id)
                            },
                        ),
                        ..old(self)@
                    })
                },
                Err(e) => {
                    &&& final(self)@ == old(self)@
                    &&& (match e {
                        StoreError::NothingToUpdate => title is None && description is None
                            && priority is None,
                        StoreError::InvalidPriority { given } => (match priority {
                            Some(p) => given == p && !is_valid_priority(p@),
                            None => false,
                        }),
                        StoreError::IssueNotFound { id: n } => n == id && !old(self)@.has_issue(id),
                        _ => false,
                    })
                },
            },
    {
        if title.is_none() && description.is_none() && priority.is_none() {
            return Err(StoreError::NothingToUpdate);
        }
        let parsed: Option<Priority> = match priority {
            Some(p) => {
                match parse_priority(p.as_str()) {
                    Some(x) => Some(x),
                    None => {
                        return Err(StoreError::InvalidPriority { given: p });
                    },
                }
            },
            None => None,
        };
        if self.update_issue(id, title, description, parsed, now) {
            Ok(())
        } else {
            Err(StoreError::IssueNotFound { id })
        }
    }

    /// Closes an issue: status closed, `closed_at` and `updated_at` set to
    /// `now`, whatever the current status; `false` when the id is absent.
    pub fn close_issue(&mut self, id: u64, now: u64) -> (r: bool)
        requires
            old(self)@.wf(),
        ensures
            final(self)@.wf(),
            r == old(self)@.has_issue(id),
            r ==> final(self)@ == close_transition(old(self)@, id, now),
            !r ==> final(self)@ == old(self)@,
    {
        match self.find_issue_index(id) {
            Some(i) => {
                proof {
                    lemma_sorted_index_unique(self@.issues, i as int, idx_of(self@.issues, id));
                }
                let mut iss = self.issues[i].duplicate();
                iss.status = Status::Closed;
                iss.closed_at = Some(now);
                iss.updated_at = now;
                let ghost x = iss;
                self.issues.set(i, iss);
                proof {
                    lemma_issue_update_wf(old(self)@, self@, i as int, x);
                }
                true
            },
            None => false,
        }
    }

    /// Reopens a closed issue: status open again, `closed_at` cleared,
    /// `updated_at` refreshed. Valid only from closed — not from archived,
    /// and not from open — where it is a no-op returning `false`; `false`
    /// too when the id is absent.
    pub fn reopen_issue(&mut self, id: u64, now: u64) -> (r: bool)
        requires
            old(self)@.wf(),
        ensures
            final(self)@.wf(),
            r == (old(self)@.has_issue(id) && old(self)@.issue(id).status == Status::Closed),
            r ==> final(self)@ == reopen_transition(old(self)@, id, now),
            !r ==> final(self)@ == old(self)@,
    {
        match self.find_issue_index(id) {
            Some(i) => {
                proof {
                    lemma_sorted_index_unique(self@.issues, i as int, idx_of(self@.issues, id));
                }
                match self.issues[i].status {
                    Status::Closed => {
                        let mut iss = self.issues[i].duplicate();
                        iss.status = Status::Open;
                        iss.closed_at = None;
                        iss.updated_at = now;
                        let ghost x = iss;
                        self.issues.set(i, iss);
                        proof {
                            lemma_issue_update_wf(old(self)@, self@, i as int, x);
                        }
                        true
                    },
                    _ => false,
                }
            },
            None => false,
        }
    }

    /// Archives an issue, valid only from closed; an absent id or a
    /// not-closed status is reported as a typed error.
    pub fn archive_issue(&mut self, id: u64, now: u64) -> (r: Result<(), StoreError>)
        requires
            old(self)@.wf(),
        ensures
            final(self)@.wf(),
            match r {
                Ok(_) => {
                    &&& old(self)@.has_issue(id)
                    &&& old(self)@.issue(id).status == Status::Closed
                    &&& final(self)@ == (StoreV {
                        issues: old(self)@.issues.update(
                            idx_of(old(self)@.issues, id),
                            Issue {
                                status: Status::Archived,
                                updated_at: now,
                                ..old(self)@.issue(id)
                            },
                        ),
                        ..old(self)@
                    })
                },
                Err(e) => {
                    &&& final(self)@ == old(self)@
                    &&& (match e {
                        StoreError::IssueNotFound { id: n } => n == id && !old(self)@.has_issue(id),
                        StoreError::NotClosed { id: n, status } => n == id && old(self)@.has_issue(
                            id,
                        ) && status == old(self)@.issue(id).status && status != Status::Closed,
                        _ => false,
                    })
                },
            },
    {
        match self.find_issue_index(id) {
            Some(i) => {
                proof {
                    lemma_sorted_index_unique(self@.issues, i as int, idx_of(self@.issues, id));
                }
                match self.issues[i].status {
                    Status::Closed => {
                        let mut iss = self.issues[i].duplicate();
                        iss.status = Status::Archived;
                        iss.updated_at = now;
                        let ghost x = iss;
                        self.issues.set(i, iss);
                        proof {
                            lemma_issue_update_wf(old(self)@, self@, i as int, x);
                        }
                        Ok(())
                    },
                    s => Err(StoreError::NotClosed { id, status: s }),
                }
            },
            None => Err(StoreError::IssueNotFound { id }),
        }
    }

    /// Unarchives an issue: archived back to closed, never directly to
    /// open. An absent id or a not-archived status is one error, as the
    /// callers report it.
    pub fn unarchive_issue(&mut self, id: u64, now: u64) -> (r: Result<(), StoreError>)
        requires
            old(self)@.wf(),
        ensures
            final(self)@.wf(),
            match r {
                Ok(_) => {
                    &&& old(self)@.has_issue(id)
                    &&& old(self)@.issue(id).status == Status::Archived
                    &&& final(self)@ == (StoreV {
                        issues: old(self)@.issues.update(
                            idx_of(old(self)@.issues, id),
                            Issue {
                                status: Status::Closed,
                                updated_at: now,
                                ..old(self)@.issue(id)
                            },
                        ),
                        ..old(self)@
                    })
                },
                Err(e) => {
                    &&& final(self)@ == old(self)@
                    &&& e == (StoreError::NotArchived { id })
                    &&& !(old(self)@.has_issue(id) && old(self)@.issue(id).status
                        == Status::Archived)
                },
            },
    {
        match self.find_issue_index(id) {
            Some(i) => {
                proof {
                    lemma_sorted_index_unique(self@.issues, i as int, idx_of(self@.issues, id));
                }
                match self.issues[i].status {
                    Status::Archived => {
                        let mut iss = self.issues[i].duplicate();
                        iss.status = Status::Closed;
                        iss.updated_at = now;
                        let ghost x = iss;
                        self.issues.set(i, iss);
                        proof {
                            lemma_issue_update_wf(old(self)@, self@, i as int, x);
                        }
                        Ok(())
                    },
                    _ => Err(StoreError::NotArchived { id }),
                }
            },
            None => Err(StoreError::NotArchived { id }),
        }
    }
}

/// Whether a closed issue's `closed_at` lies strictly before the cutoff.
pub open spec fn older_than(iss: Issue, cutoff: int) -> bool {
    iss.status == Status::Closed && match iss.closed_at {
        Some(c) => (c as int) < cutoff,
        None => false,
    }
}

/// The archive cutoff: `days` days of 86400 seconds before `now`.
pub open spec fn archive_cutoff(now: u64, days: u64) -> int {
    now - days * 86400
}

/// The issue table after archiving everything closed before the cutoff.
pub open spec fn archive_older_map(s: Seq<Issue>, cutoff: int, now: u64) -> Seq<Issue> {
    Seq::new(
        s.len(),
        |i: int|
            if older_than(s[i], cutoff) {
                Issue { status: Status::Archived, updated_at: now, ..s[i] }
            } else {
                s[i]
            },
    )
}

/// How many issues the cutoff archives.
pub open spec fn archive_older_count(s: Seq<Issue>, cutoff: int) -> int
    decreases s.len(),
{
    if s.len() == 0 {
        0
    } else {
        archive_older_count(s.drop_last(), cutoff) + (if older_than(s.last(), cutoff) {
            1int
        } else {
            0int
        })
    }
}

impl Store {
    /// Archives every issue closed more than `days` days before `now`,
    /// and reports how many were archived.
    pub fn archive_older_than(&mut self, days: u64, now: u64) -> (r: usize)
        requires
            old(self)@.wf(),
        ensures
            final(self)@.wf(),
            final(self)@ == (StoreV {
                issues: archive_older_map(
                    old(self)@.issues,
                    archive_cutoff(now, days),
                    now,
                ),
                ..old(self)@
            }),
            r == archive_older_count(old(self)@.issues, archive_cutoff(now, days)),
    {
        let ghost pre = self@;
        let ghost cutoff = archive_cutoff(now, days);
        let mut count: usize = 0;
        let mut i: usize = 0;
        proof {
            assert(pre.issues.subrange(0, 0) =~= Seq::<Issue>::empty());
        }
        while i < self.issues.len()
            invariant
                pre == old(self)@,
                pre.wf(),
                self@.wf(),
                cutoff == archive_cutoff(now, days),
                i <= pre.issues.len(),
                self@ == (StoreV { issues: self@.issues, ..pre }),
                self@.issues.len() == pre.issues.len(),
                forall|k: int|
                    0 <= k < i ==> self@.issues[k] == archive_older_map(pre.issues, cutoff, now)[k],
                forall|k: int| i <= k < pre.issues.len() ==> self@.issues[k] == pre.issues[k],
                count == archive_older_count(pre.issues.subrange(0, i as int), cutoff),
                count <= i,
            decreases pre.issues.len() - i,
        {
            proof {
                assert(pre.issues.subrange(0, i + 1).drop_last() =~= pre.issues.subrange(
                    0,
                    i as int,
                ));
                assert(pre.issues.subrange(0, i + 1).last() == pre.issues[i as int]);
            }
            let is_closed = match self.issues[i].status {
                Status::Closed => true,
                _ => false,
            };
            let expired: bool = if is_closed {
                match self.issues[i].closed_at {
                    Some(c) => (c as u128) + (days as u128) * 86400 < (now as u128),
                    None => false,
                }
            } else {
                false
            };
            proof {
                assert(expired == older_than(pre.issues[i as int], cutoff));
            }
            if expired {
                let ghost before = self@;
                let mut iss = self.issues[i].duplicate();
                iss.status = Status::Archived;
                iss.updated_at = now;
                let ghost x = iss;
                self.issues.set(i, iss);
                proof {
                    lemma_issue_update_wf(before, self@, i as int, x);
                }
                count += 1;
            }
            i += 1;
        }
        proof {
            assert(pre.issues.subrange(0, pre.issues.len() as int) =~= pre.issues);
            assert(self@.issues =~= archive_older_map(pre.issues, cutoff, now));
        }
        count
    }
}

} // verus!
