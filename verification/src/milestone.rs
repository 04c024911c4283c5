//! Milestones: named groupings of issues with aggregate progress. The
//! membership rows join milestones to issues; deleting a milestone removes
//! its rows, and closed/total progress is counted live.

use vstd::prelude::*;
use crate::errors::StoreError;
use crate::model::{Issue, Milestone, MilestoneMember, MilestoneStatus, Status};
use crate::store::{has_issue_in, idx_of, issue_in, lemma_sorted_index_unique, Store, StoreV};

verus! {

/// The membership rows that survive deleting one milestone.
pub open spec fn members_without(s: Seq<MilestoneMember>, milestone_id: u64) -> Seq<
    MilestoneMember,
>
    decreases s.len(),
{
    if s.len() == 0 {
        Seq::empty()
    } else {
        let rest = members_without(s.drop_last(), milestone_id);
        if s.last().milestone_id != milestone_id {
            rest.push(s.last())
        } else {
            rest
        }
    }
}

/// The issues of one milestone, in membership order.
pub open spec fn milestone_issues_spec(
    members: Seq<MilestoneMember>,
    issues: Seq<Issue>,
    milestone_id: u64,
) -> Seq<Issue>
    decreases members.len(),
{
    if members.len() == 0 {
        Seq::empty()
    } else {
        let rest = milestone_issues_spec(members.drop_last(), issues, milestone_id);
        if members.last().milestone_id == milestone_id {
            rest.push(issue_in(issues, members.last().issue_id))
        } else {
            rest
        }
    }
}

/// How many issues of one milestone are closed.
pub open spec fn closed_count_spec(s: Seq<Issue>) -> int
    decreases s.len(),
{
    if s.len() == 0 {
        0
    } else {
        closed_count_spec(s.drop_last()) + (if s.last().status == Status::Closed {
            1int
        } else {
            0int
        })
    }
}

impl StoreV {
    /// The index of the milestone with this id.
    pub open spec fn milestone_idx(self, id: u64) -> int {
        choose|i: int| 0 <= i < self.milestones.len() && self.milestones[i].id == id
    }

    /// The milestone with this id.
    pub open spec fn milestone(self, id: u64) -> Milestone {
        self.milestones[self.milestone_idx(id)]
    }
}

impl Store {
    /// The position of the milestone with this id, if any.
    pub(crate) fn find_milestone_index(&self, id: u64) -> (r: Option<usize>)
        ensures
            match r {
                Some(i) => i < self@.milestones.len() && self@.milestones[i as int].id == id,
                None => !self@.has_milestone(id),
            },
    {
        let mut i: usize = 0;
        while i < self.milestones.len()
            invariant
                i <= self@.milestones.len(),
                forall|j: int| 0 <= j < i ==> self@.milestones[j].id != id,
            decreases self@.milestones.len() - i,
        {
            if self.milestones[i].id == id {
                return Some(i);
            }
            i += 1;
        }
        proof {
            if self@.has_milestone(id) {
                let j = choose|j: int|
                    0 <= j < self@.milestones.len() && self@.milestones[j].id == id;
                assert(false);
            }
        }
        None
    }

    /// Under the invariant, a milestone id determines its index.
    proof fn lemma_milestone_index_unique(v: StoreV, i: int, j: int)
        requires
            v.milestones_wf(),
            0 <= i < v.milestones.len(),
            0 <= j < v.milestones.len(),
            v.milestones[i].id == v.milestones[j].id,
        ensures
            i == j,
    {
        if i < j {
            assert(v.milestones[i].id < v.milestones[j].id);
        }
        if j < i {
            assert(v.milestones[j].id < v.milestones[i].id);
        }
    }

    /// Creates a milestone, open, at `now`; returns its id.
    pub fn create_milestone(&mut self, name: String, description: Option<String>, now: u64) -> (r:
        Result<u64, StoreError>)
        requires
            old(self)@.wf(),
        ensures
            final(self)@.wf(),
            match r {
                Ok(id) => {
                    &&& old(self)@.next_milestone_id < u64::MAX
                    &&& id == old(self)@.next_milestone_id
                    &&& final(self)@ == (StoreV {
                        milestones: old(self)@.milestones.push(
                            Milestone {
                                id,
                                name,
                                description,
                                status: MilestoneStatus::Open,
                                created_at: now,
                                closed_at: None,
                            },
                        ),
                        next_milestone_id: (id + 1) as u64,
                        ..old(self)@
                    })
                },
                Err(e) => {
                    &&& e == StoreError::StorageFull
                    &&& old(self)@.next_milestone_id == u64::MAX
                    &&& final(self)@ == old(self)@
                },
            },
    {
        if self.next_milestone_id == u64::MAX {
            return Err(StoreError::StorageFull);
        }
        let id = self.next_milestone_id;
        let ghost pre = self@;
        self.milestones.push(
            Milestone {
                id,
                name,
                description,
                status: MilestoneStatus::Open,
                created_at: now,
                closed_at: None,
            },
        );
        self.next_milestone_id = id + 1;
        proof {
            assert forall|k: int| 0 <= k < self@.members.len() implies self@.has_milestone(
                (#[trigger] self@.members[k]).milestone_id,
            ) by {
                assert(pre.has_milestone(pre.members[k].milestone_id));
                let j = choose|j: int|
                    0 <= j < pre.milestones.len() && pre.milestones[j].id
                        == pre.members[k].milestone_id;
                assert(self@.milestones[j].id == pre.members[k].milestone_id);
            }
        }
        Ok(id)
    }

    /// A read-only view of the milestone with this id.
    pub fn get_milestone(&self, id: u64) -> (r: Option<&Milestone>)
        requires
            self@.wf(),
        ensures
            match r {
                Some(m) => self@.has_milestone(id) && *m == self@.milestone(id),
                None => !self@.has_milestone(id),
            },
    {
        match self.find_milestone_index(id) {
            Some(i) => {
                proof {
                    Self::lemma_milestone_index_unique(
                        self@,
                        i as int,
                        self@.milestone_idx(id),
                    );
                }
                Some(&self.milestones[i])
            },
            None => None,
        }
    }

    /// Every milestone, in creation order.
    pub fn list_milestones(&self) -> (r: Vec<Milestone>)
        requires
            self@.wf(),
        ensures
            r@ == self@.milestones,
    {
        let mut r: Vec<Milestone> = Vec::new();
        let mut i: usize = 0;
        proof {
            assert(r@ =~= self@.milestones.subrange(0, 0));
        }
        while i < self.milestones.len()
            invariant
                i <= self@.milestones.len(),
                r@ == self@.milestones.subrange(0, i as int),
            decreases self@.milestones.len() - i,
        {
            r.push(self.milestones[i].duplicate());
            proof {
                assert(r@ =~= self@.milestones.subrange(0, i + 1));
            }
            i += 1;
        }
        proof {
            assert(self@.milestones.subrange(0, self@.milestones.len() as int) =~= self@.milestones);
        }
        r
    }

    /// Puts an issue into a milestone. Both must exist; a duplicate
    /// membership is a no-op reported as `false`.
    pub fn add_issue_to_milestone(&mut self, milestone_id: u64, issue_id: u64) -> (r: Result<
        bool,
        StoreError,
    >)
        requires
            old(self)@.wf(),
        ensures
            final(self)@.wf(),
            match r {
                Ok(true) => {
                    &&& old(self)@.has_milestone(milestone_id)
                    &&& old(self)@.has_issue(issue_id)
                    &&& !old(self)@.member_exists(milestone_id, issue_id)
                    &&& final(self)@ == (StoreV {
                        members: old(self)@.members.push(
                            MilestoneMember { milestone_id, issue_id },
                        ),
                        ..old(self)@
                    })
                },
                Ok(false) => {
                    &&& old(self)@.member_exists(milestone_id, issue_id)
                    &&& final(self)@ == old(self)@
                },
                Err(e) => {
                    &&& final(self)@ == old(self)@
                    &&& (match e {
                        StoreError::MilestoneNotFound { id: n } => n == milestone_id && !old(
                            self,
                        )@.has_milestone(milestone_id),
                        StoreError::IssueNotFound { id: n } => n == issue_id && old(
                            self,
                        )@.has_milestone(milestone_id) && !old(self)@.has_issue(issue_id),
                        _ => false,
                    })
                },
            },
    {
        if self.find_milestone_index(milestone_id).is_none() {
            return Err(StoreError::MilestoneNotFound { id: milestone_id });
        }
        if self.find_issue_index(issue_id).is_none() {
            return Err(StoreError::IssueNotFound { id: issue_id });
        }
        let ghost pre = self@;
        let mut i: usize = 0;
        while i < self.members.len()
            invariant
                self@.wf(),
                self@ == pre,
                pre == old(self)@,
                i <= self@.members.len(),
                forall|j: int|
                    0 <= j < i ==> self@.members[j] != (MilestoneMember { milestone_id, issue_id }),
            decreases self@.members.len() - i,
        {
            if self.members[i].milestone_id == milestone_id && self.members[i].issue_id == issue_id {
                proof {
                    assert(self@.members[i as int] == (MilestoneMember { milestone_id, issue_id }));
                }
                return Ok(false);
            }
            i += 1;
        }
        proof {
            if pre.member_exists(milestone_id, issue_id) {
                let j = choose|j: int|
                    0 <= j < pre.members.len() && pre.members[j] == (MilestoneMember {
                        milestone_id,
                        issue_id,
                    });
                assert(false);
            }
        }
        self.members.push(MilestoneMember { milestone_id, issue_id });
        proof {
            let t = self@.members;
            assert forall|a: int, b: int| 0 <= a < b < t.len() implies t[a] != t[b] by {
                if b == t.len() - 1 {
                    assert(t[a] == pre.members[a]);
                }
            }
        }
        Ok(true)
    }

    /// Takes an issue out of a milestone; `false` when it was not in it.
    pub fn remove_issue_from_milestone(&mut self, milestone_id: u64, issue_id: u64) -> (r: bool)
        requires
            old(self)@.wf(),
        ensures
            final(self)@.wf(),
            r == old(self)@.member_exists(milestone_id, issue_id),
            !r ==> final(self)@ == old(self)@,
            !final(self)@.member_exists(milestone_id, issue_id),
            r ==> exists|i: int|
                0 <= i < old(self)@.members.len() && old(self)@.members[i] == (MilestoneMember {
                    milestone_id,
                    issue_id,
                }) && final(self)@ == (StoreV {
                    members: old(self)@.members.remove(i),
                    ..old(self)@
                }),
    {
        let ghost pre = self@;
        let mut i: usize = 0;
        while i < self.members.len()
            invariant
                self@.wf(),
                self@ == pre,
                pre == old(self)@,
                i <= self@.members.len(),
                forall|j: int|
                    0 <= j < i ==> self@.members[j] != (MilestoneMember { milestone_id, issue_id }),
            decreases self@.members.len() - i,
        {
            if self.members[i].milestone_id == milestone_id && self.members[i].issue_id == issue_id {
                proof {
                    assert(self@.members[i as int] == (MilestoneMember { milestone_id, issue_id }));
                }
                self.members.remove(i);
                proof {
                    let s = pre.members;
                    let t = self@.members;
                    assert(t == s.remove(i as int));
                    assert forall|k: int| 0 <= k < t.len() implies t[k] == (if k < i {
                        s[k]
                    } else {
                        s[k + 1]
                    }) by {}
                    assert forall|k1: int, k2: int| 0 <= k1 < k2 < t.len() implies t[k1]
                        != t[k2] by {
                        let m1: int = if k1 < i { k1 } else { k1 + 1 };
                        let m2: int = if k2 < i { k2 } else { k2 + 1 };
                        assert(t[k1] == s[m1] && t[k2] == s[m2]);
                    }
                    assert forall|k: int| 0 <= k < t.len() implies self@.has_milestone(
                        (#[trigger] t[k]).milestone_id,
                    ) && has_issue_in(self@.issues, t[k].issue_id) by {
                        let m: int = if k < i { k } else { k + 1 };
                        assert(t[k] == s[m]);
                        assert(pre.has_milestone(s[m].milestone_id));
                    }
                    assert(!self@.member_exists(milestone_id, issue_id)) by {
                        if self@.member_exists(milestone_id, issue_id) {
                            let k = choose|k: int|
                                0 <= k < t.len() && t[k] == (MilestoneMember {
                                    milestone_id,
                                    issue_id,
                                });
                            let m: int = if k < i { k } else { k + 1 };
                            assert(s[m] == (MilestoneMember { milestone_id, issue_id }));
                            if m > i {
                                assert(s[i as int] == s[m]);
                            }
                        }
                    }
                    assert(self@ == (StoreV { members: s.remove(i as int), ..pre }));
                }
                return true;
            }
            i += 1;
        }
        proof {
            if pre.member_exists(milestone_id, issue_id) {
                let j = choose|j: int|
                    0 <= j < pre.members.len() && pre.members[j] == (MilestoneMember {
                        milestone_id,
                        issue_id,
                    });
                assert(false);
            }
        }
        false
    }

    /// Closes a milestone at `now`; `false` when the id is absent.
    pub fn close_milestone(&mut self, id: u64, now: u64) -> (r: bool)
        requires
            old(self)@.wf(),
        ensures
            final(self)@.wf(),
            r == old(self)@.has_milestone(id),
            !r ==> final(self)@ == old(self)@,
            r ==> final(self)@ == (StoreV {
                milestones: old(self)@.milestones.update(
                    old(self)@.milestone_idx(id),
                    Milestone {
                        status: MilestoneStatus::Closed,
                        closed_at: Some(now),
                        ..old(self)@.milestone(id)
                    },
                ),
                ..old(self)@
            }),
    {
        match self.find_milestone_index(id) {
            Some(i) => {
                proof {
                    Self::lemma_milestone_index_unique(self@, i as int, self@.milestone_idx(id));
                }
                let ghost pre = self@;
                let mut m = self.milestones[i].duplicate();
                m.status = MilestoneStatus::Closed;
                m.closed_at = Some(now);
                self.milestones.set(i, m);
                proof {
                    let t = self@.milestones;
                    assert(forall|k: int|
                        0 <= k < t.len() ==> #[trigger] t[k].id == pre.milestones[k].id);
                    assert forall|k: int| 0 <= k < self@.members.len() implies self@.has_milestone(
                        (#[trigger] self@.members[k]).milestone_id,
                    ) by {
                        assert(pre.has_milestone(pre.members[k].milestone_id));
                        let j = choose|j: int|
                            0 <= j < pre.milestones.len() && pre.milestones[j].id
                                == pre.members[k].milestone_id;
                        assert(t[j].id == pre.members[k].milestone_id);
                    }
                    assert(self@.milestones_wf());
                }
                true
            },
            None => false,
        }
    }

    /// Deletes a milestone together with its membership rows; the issues
    /// themselves are untouched. `false` when the id is absent.
    pub fn delete_milestone(&mut self, id: u64) -> (r: bool)
        requires
            old(self)@.wf(),
        ensures
            final(self)@.wf(),
            r == old(self)@.has_milestone(id),
            !r ==> final(self)@ == old(self)@,
            !final(self)@.has_milestone(id),
            r ==> final(self)@ == (StoreV {
                milestones: old(self)@.milestones.remove(old(self)@.milestone_idx(id)),
                members: members_without(old(self)@.members, id),
                ..old(self)@
            }),
    {
        match self.find_milestone_index(id) {
            Some(i) => {
                proof {
                    Self::lemma_milestone_index_unique(self@, i as int, self@.milestone_idx(id));
                }
                let ghost pre = self@;
                self.milestones.remove(i);
                let mut new_members: Vec<MilestoneMember> = Vec::new();
                let mut k: usize = 0;
                proof {
                    assert(pre.members.subrange(0, 0) =~= Seq::<MilestoneMember>::empty());
                    assert(new_members@ =~= members_without(pre.members.subrange(0, 0), id));
                }
                while k < self.members.len()
                    invariant
                        k <= self@.members.len(),
                        self@.members == pre.members,
                        new_members@ == members_without(pre.members.subrange(0, k as int), id),
                    decreases self@.members.len() - k,
                {
                    proof {
                        assert(pre.members.subrange(0, k + 1).drop_last() =~= pre.members.subrange(
                            0,
                            k as int,
                        ));
                        assert(pre.members.subrange(0, k + 1).last() == pre.members[k as int]);
                    }
                    if self.members[k].milestone_id != id {
                        new_members.push(self.members[k]);
                    }
                    k += 1;
                }
                proof {
                    assert(pre.members.subrange(0, pre.members.len() as int) =~= pre.members);
                }
                self.members = new_members;
                proof {
                    let ms = pre.milestones;
                    let t = self@.milestones;
                    assert(t == ms.remove(i as int));
                    assert forall|a: int| 0 <= a < t.len() implies t[a] == (if a < i {
                        ms[a]
                    } else {
                        ms[a + 1]
                    }) by {}
                    assert forall|a: int, b: int| 0 <= a < b < t.len() implies t[a].id
                        < t[b].id by {
                        let m1: int = if a < i { a } else { a + 1 };
                        let m2: int = if b < i { b } else { b + 1 };
                        assert(t[a] == ms[m1] && t[b] == ms[m2]);
                    }
                    assert(!self@.has_milestone(id)) by {
                        if self@.has_milestone(id) {
                            let a = choose|a: int| 0 <= a < t.len() && t[a].id == id;
                            let m: int = if a < i { a } else { a + 1 };
                            assert(ms[m].id == id);
                            Self::lemma_milestone_index_unique(pre, m, i as int);
                        }
                    }
                    lemma_members_without_props(pre.members, id);
                    assert forall|a: int, b: int|
                        0 <= a < b < self@.members.len() implies self@.members[a]
                        != self@.members[b] by {}
                    assert forall|a: int| 0 <= a < self@.members.len() implies self@.has_milestone(
                        (#[trigger] self@.members[a]).milestone_id,
                    ) && has_issue_in(self@.issues, self@.members[a].issue_id) by {
                        let j = choose|j: int|
                            0 <= j < pre.members.len() && pre.members[j] == self@.members[a];
                        assert(pre.has_milestone(pre.members[j].milestone_id));
                        let w = choose|w: int|
                            0 <= w < ms.len() && ms[w].id == pre.members[j].milestone_id;
                        assert(ms[w].id != id);
                        if w < i {
                            assert(t[w] == ms[w]);
                            assert(self@.has_milestone(ms[w].id));
                        } else {
                            assert(w > i);
                            assert(t[w - 1] == ms[w]);
                            assert(self@.has_milestone(ms[w].id));
                        }
                    }
                    assert(self@.milestones_wf());
                    assert(self@.members_wf());
                }
                true
            },
            None => false,
        }
    }

    /// The issues of a milestone, in membership order.
    pub fn get_milestone_issues(&self, milestone_id: u64) -> (r: Vec<Issue>)
        requires
            self@.wf(),
        ensures
            r@ == milestone_issues_spec(self@.members, self@.issues, milestone_id),
    {
        let ghost pre = self@;
        let mut r: Vec<Issue> = Vec::new();
        let mut i: usize = 0;
        proof {
            assert(pre.members.subrange(0, 0) =~= Seq::<MilestoneMember>::empty());
            assert(r@ =~= milestone_issues_spec(pre.members.subrange(0, 0), pre.issues, milestone_id));
        }
        while i < self.members.len()
            invariant
                self@.wf(),
                self@ == pre,
                i <= pre.members.len(),
                r@ == milestone_issues_spec(pre.members.subrange(0, i as int), pre.issues, milestone_id),
            decreases pre.members.len() - i,
        {
            proof {
                assert(pre.members.subrange(0, i + 1).drop_last() =~= pre.members.subrange(
                    0,
                    i as int,
                ));
                assert(pre.members.subrange(0, i + 1).last() == pre.members[i as int]);
            }
            if self.members[i].milestone_id == milestone_id {
                let iid = self.members[i].issue_id;
                match self.find_issue_index(iid) {
                    Some(j) => {
                        proof {
                            lemma_sorted_index_unique(pre.issues, j as int, idx_of(pre.issues, iid));
                        }
                        r.push(self.issues[j].duplicate());
                    },
                    None => {
                        proof {
                            assert(has_issue_in(pre.issues, pre.members[i as int].issue_id));
                            assert(false);
                        }
                    },
                }
            }
            i += 1;
        }
        proof {
            assert(pre.members.subrange(0, pre.members.len() as int) =~= pre.members);
        }
        r
    }

    /// The closed/total progress of a list of issues, as the milestone
    /// displays aggregate it.
    pub fn count_closed(issues: &Vec<Issue>) -> (r: usize)
        ensures
            r == closed_count_spec(issues@),
            r <= issues@.len(),
    {
        let ghost s = issues@;
        let mut acc: usize = 0;
        let mut i: usize = 0;
        proof {
            assert(s.subrange(0, 0) =~= Seq::<Issue>::empty());
        }
        while i < issues.len()
            invariant
                s == issues@,
                i <= s.len(),
                acc == closed_count_spec(s.subrange(0, i as int)),
                acc <= i,
                closed_count_spec(s.subrange(0, i as int)) >= 0,
            decreases s.len() - i,
        {
            proof {
                assert(s.subrange(0, i + 1).drop_last() =~= s.subrange(0, i as int));
                assert(s.subrange(0, i + 1).last() == s[i as int]);
            }
            let closed = match issues[i].status {
                Status::Closed => true,
                _ => false,
            };
            if closed {
                acc += 1;
            }
            i += 1;
        }
        proof {
            assert(s.subrange(0, s.len() as int) =~= s);
        }
        acc
    }
}

/// Removing one milestone's rows keeps the remaining rows, their order
/// and their distinctness.
pub proof fn lemma_members_without_props(s: Seq<MilestoneMember>, milestone_id: u64)
    ensures
        forall|k: int|
            0 <= k < members_without(s, milestone_id).len() ==> (#[trigger] members_without(
                s,
                milestone_id,
            )[k]).milestone_id != milestone_id && exists|j: int|
                0 <= j < s.len() && s[j] == members_without(s, milestone_id)[k],
        (forall|i: int, j: int| 0 <= i < j < s.len() ==> s[i] != s[j]) ==> (forall|
            k1: int,
            k2: int,
        |
            0 <= k1 < k2 < members_without(s, milestone_id).len() ==> members_without(
                s,
                milestone_id,
            )[k1] != members_without(s, milestone_id)[k2]),
    decreases s.len(),
{
    let r = members_without(s, milestone_id);
    if s.len() > 0 {
        let s0 = s.drop_last();
        lemma_members_without_props(s0, milestone_id);
        let r0 = members_without(s0, milestone_id);
        assert forall|k: int| 0 <= k < r.len() implies (#[trigger] r[k]).milestone_id
            != milestone_id && exists|j: int| 0 <= j < s.len() && s[j] == r[k] by {
            if k < r0.len() {
                assert(r[k] == r0[k]);
                let j = choose|j: int| 0 <= j < s0.len() && s0[j] == r0[k];
                assert(s[j] == r[k]);
            } else {
                assert(s[s.len() - 1] == r[k]);
            }
        }
        if forall|i: int, j: int| 0 <= i < j < s.len() ==> s[i] != s[j] {
            assert forall|i: int, j: int| 0 <= i < j < s0.len() implies s0[i] != s0[j] by {
                assert(s0[i] == s[i] && s0[j] == s[j]);
            }
            assert forall|k1: int, k2: int| 0 <= k1 < k2 < r.len() implies r[k1] != r[k2] by {
                if k2 < r0.len() {
                    assert(r[k1] == r0[k1] && r[k2] == r0[k2]);
                } else {
                    assert(r[k1] == r0[k1]);
                    let j = choose|j: int| 0 <= j < s0.len() && s0[j] == r0[k1];
                    assert(s[j] == r[k1] && s[s.len() - 1] == r[k2]);
                }
            }
        }
    }
}

} // verus!
