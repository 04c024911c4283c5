//! The relations attached to issues: labels (unique tag pairs), comments
//! (append-only notes) and directed dependency edges, with the duplicate
//! and self-loop rules of the dependency graph.

use vstd::prelude::*;
use crate::errors::StoreError;
use crate::text::{lemma_lex_lt_total, lemma_lex_lt_trans, lex_lt, str_lt};
use crate::model::{Comment, Dep, Label};
use crate::store::{Store, StoreV};

verus! {

/// The comments of one issue, in table order (creation order).
pub open spec fn comments_spec(s: Seq<Comment>, issue_id: u64) -> Seq<Comment>
    decreases s.len(),
{
    if s.len() == 0 {
        Seq::empty()
    } else {
        let rest = comments_spec(s.drop_last(), issue_id);
        if s.last().issue_id == issue_id {
            rest.push(s.last())
        } else {
            rest
        }
    }
}

/// The label names of one issue, in table order (insertion order).
pub open spec fn labels_spec(s: Seq<Label>, issue_id: u64) -> Seq<Seq<char>>
    decreases s.len(),
{
    if s.len() == 0 {
        Seq::empty()
    } else {
        let rest = labels_spec(s.drop_last(), issue_id);
        if s.last().issue_id == issue_id {
            rest.push(s.last().name@)
        } else {
            rest
        }
    }
}

/// What a sorted label listing is: the issue's label names exactly (as a
/// multiset), in strictly ascending lexicographic order — so also
/// duplicate-free.
pub open spec fn sorted_label_listing(
    names: Seq<Seq<char>>,
    labels: Seq<Label>,
    issue_id: u64,
) -> bool {
    &&& names.to_multiset() == labels_spec(labels, issue_id).to_multiset()
    &&& forall|k1: int, k2: int| 0 <= k1 < k2 < names.len() ==> lex_lt(names[k1], names[k2])
}

/// Every name `labels_spec` lists belongs to a row of the table on that
/// issue; on a table of unique pairs the listed names are pairwise
/// distinct.
pub proof fn lemma_labels_spec_distinct(s: Seq<Label>, issue_id: u64)
    ensures
        forall|k: int|
            0 <= k < labels_spec(s, issue_id).len() ==> exists|j: int|
                0 <= j < s.len() && s[j].issue_id == issue_id && s[j].name@ == #[trigger] labels_spec(
                    s,
                    issue_id,
                )[k],
        (forall|i: int, j: int|
            0 <= i < j < s.len() ==> !(s[i].issue_id == s[j].issue_id && s[i].name@ == s[j].name@))
            ==> (forall|k1: int, k2: int|
            0 <= k1 < k2 < labels_spec(s, issue_id).len() ==> labels_spec(s, issue_id)[k1]
                != labels_spec(s, issue_id)[k2]),
    decreases s.len(),
{
    let r = labels_spec(s, issue_id);
    if s.len() > 0 {
        let s0 = s.drop_last();
        lemma_labels_spec_distinct(s0, issue_id);
        let r0 = labels_spec(s0, issue_id);
        assert forall|k: int| 0 <= k < r.len() implies exists|j: int|
            0 <= j < s.len() && s[j].issue_id == issue_id && s[j].name@ == #[trigger] r[k] by {
            if k < r0.len() {
                assert(r[k] == r0[k]);
                let j = choose|j: int|
                    0 <= j < s0.len() && s0[j].issue_id == issue_id && s0[j].name@ == r0[k];
                assert(s[j].issue_id == issue_id && s[j].name@ == r[k]);
            } else {
                assert(s[s.len() - 1].issue_id == issue_id && s[s.len() - 1].name@ == r[k]);
            }
        }
        if forall|i: int, j: int|
            0 <= i < j < s.len() ==> !(s[i].issue_id == s[j].issue_id && s[i].name@ == s[j].name@) {
            assert forall|i: int, j: int|
                0 <= i < j < s0.len() implies !(s0[i].issue_id == s0[j].issue_id && s0[i].name@
                == s0[j].name@) by {
                assert(s0[i] == s[i] && s0[j] == s[j]);
            }
            assert forall|k1: int, k2: int| 0 <= k1 < k2 < r.len() implies r[k1] != r[k2] by {
                if k2 == r0.len() {
                    assert(r[k1] == r0[k1]);
                    let j = choose|j: int|
                        0 <= j < s0.len() && s0[j].issue_id == issue_id && s0[j].name@ == r0[k1];
                    if r[k1] == r[k2] {
                        assert(s[j].issue_id == s[s.len() - 1].issue_id && s[j].name@ == s[s.len()
                            - 1].name@);
                    }
                } else {
                    assert(r[k1] == r0[k1] && r[k2] == r0[k2]);
                }
            }
        }
    }
}

impl Store {
    /// Attaches a label to an issue. A duplicate pair is a no-op reported
    /// as `false`; an absent issue is an error.
    pub fn add_label(&mut self, issue_id: u64, name: String) -> (r: Result<bool, StoreError>)
        requires
            old(self)@.wf(),
        ensures
            final(self)@.wf(),
            match r {
                Ok(true) => {
                    &&& old(self)@.has_issue(issue_id)
                    &&& !old(self)@.has_label(issue_id, name@)
                    &&& final(self)@ == (StoreV {
                        labels: old(self)@.labels.push(Label { issue_id, name }),
                        ..old(self)@
                    })
                },
                Ok(false) => {
                    &&& old(self)@.has_issue(issue_id)
                    &&& old(self)@.has_label(issue_id, name@)
                    &&& final(self)@ == old(self)@
                },
                Err(e) => {
                    &&& e == (StoreError::IssueNotFound { id: issue_id })
                    &&& !old(self)@.has_issue(issue_id)
                    &&& final(self)@ == old(self)@
                },
            },
    {
        if self.find_issue_index(issue_id).is_none() {
            return Err(StoreError::IssueNotFound { id: issue_id });
        }
        if self.has_label(issue_id, name.as_str()) {
            return Ok(false);
        }
        let ghost pre = self@;
        self.labels.push(Label { issue_id, name });
        proof {
            let t = self@.labels;
            assert forall|i: int, j: int| 0 <= i < j < t.len() implies !(t[i].issue_id
                == t[j].issue_id && t[i].name@ == t[j].name@) by {
                if j == t.len() - 1 {
                    if t[i].issue_id == issue_id && t[i].name@ == t[j].name@ {
                        assert(pre.has_label(issue_id, t[j].name@));
                    }
                }
            }
        }
        Ok(true)
    }

    /// Detaches a label from an issue; `false` when the pair was absent.
    pub fn remove_label(&mut self, issue_id: u64, name: &str) -> (r: bool)
        requires
            old(self)@.wf(),
        ensures
            final(self)@.wf(),
            r == old(self)@.has_label(issue_id, name@),
            !r ==> final(self)@ == old(self)@,
            r ==> exists|i: int|
                0 <= i < old(self)@.labels.len() && old(self)@.labels[i].issue_id == issue_id && old(
                    self,
                )@.labels[i].name@ == name@ && final(self)@ == (StoreV {
                    labels: old(self)@.labels.remove(i),
                    ..old(self)@
                }),
            !final(self)@.has_label(issue_id, name@),
    {
        let ghost pre = self@;
        let mut i: usize = 0;
        while i < self.labels.len()
            invariant
                self@.wf(),
                self@ == pre,
                pre == old(self)@,
                i <= self@.labels.len(),
                forall|j: int|
                    0 <= j < i ==> !(self@.labels[j].issue_id == issue_id && self@.labels[j].name@
                        == name@),
            decreases self@.labels.len() - i,
        {
            if self.labels[i].issue_id == issue_id {
                if crate::text::str_eq(self.labels[i].name.as_str(), name) {
                    self.labels.remove(i);
                    proof {
                        let s = pre.labels;
                        let t = self@.labels;
                        assert(t == s.remove(i as int));
                        assert forall|k: int| 0 <= k < t.len() implies t[k] == (if k < i {
                            s[k]
                        } else {
                            s[k + 1]
                        }) by {}
                        assert forall|k1: int, k2: int| 0 <= k1 < k2 < t.len() implies !(t[k1].issue_id
                            == t[k2].issue_id && t[k1].name@ == t[k2].name@) by {
                            let m1: int = if k1 < i { k1 } else { k1 + 1 };
                            let m2: int = if k2 < i { k2 } else { k2 + 1 };
                            assert(t[k1] == s[m1] && t[k2] == s[m2]);
                        }
                        assert forall|k: int|
                            0 <= k < t.len() implies !(t[k].issue_id == issue_id && t[k].name@
                            == name@) by {
                            let m: int = if k < i { k } else { k + 1 };
                            assert(t[k] == s[m]);
                            if m > i {
                                if s[m].issue_id == issue_id && s[m].name@ == name@ {
                                    assert(s[i as int].issue_id == s[m].issue_id && s[i as int].name@
                                        == s[m].name@);
                                }
                            }
                        }
                        assert(pre.has_label(issue_id, name@)) by {
                            assert(s[i as int].issue_id == issue_id && s[i as int].name@ == name@);
                        }
                        assert(s[i as int].issue_id == issue_id && s[i as int].name@ == name@
                            && self@ == (StoreV { labels: s.remove(i as int), ..pre }));
                    }
                    return true;
                }
            }
            i += 1;
        }
        false
    }

    /// The label names of an issue, sorted ascending lexicographically —
    /// the order a byte-wise comparison of the stored text induces.
    pub fn get_labels(&self, issue_id: u64) -> (r: Vec<String>)
        requires
            self@.wf(),
        ensures
            sorted_label_listing(r.deep_view(), self@.labels, issue_id),
    {
        let ghost pre = self@.labels;
        let ghost target = labels_spec(pre, issue_id);
        let mut rem: Vec<String> = Vec::new();
        let mut i: usize = 0;
        proof {
            assert(pre.subrange(0, 0) =~= Seq::<Label>::empty());
            assert(rem.deep_view() =~= labels_spec(pre.subrange(0, 0), issue_id));
        }
        while i < self.labels.len()
            invariant
                pre == self@.labels,
                i <= pre.len(),
                rem.deep_view() == labels_spec(pre.subrange(0, i as int), issue_id),
            decreases pre.len() - i,
        {
            let ghost r0 = rem.deep_view();
            proof {
                assert(pre.subrange(0, i + 1).drop_last() =~= pre.subrange(0, i as int));
                assert(pre.subrange(0, i + 1).last() == pre[i as int]);
            }
            if self.labels[i].issue_id == issue_id {
                rem.push(self.labels[i].name.clone());
                proof {
                    assert(rem.deep_view() =~= r0.push(pre[i as int].name@));
                }
            }
            i += 1;
        }
        proof {
            broadcast use vstd::seq_lib::group_to_multiset_ensures;

            assert(pre.subrange(0, pre.len() as int) =~= pre);
            lemma_labels_spec_distinct(pre, issue_id);
            assert(rem.deep_view().to_multiset() =~= target.to_multiset());
        }
        let mut out: Vec<String> = Vec::new();
        proof {
            broadcast use vstd::seq_lib::group_to_multiset_ensures;

            assert(out.deep_view().to_multiset().add(rem.deep_view().to_multiset())
                =~= target.to_multiset());
        }
        while rem.len() > 0
            invariant
                out.deep_view().to_multiset().add(rem.deep_view().to_multiset())
                    == target.to_multiset(),
                forall|k1: int, k2: int|
                    0 <= k1 < k2 < rem.deep_view().len() ==> rem.deep_view()[k1]
                        != rem.deep_view()[k2],
                forall|k1: int, k2: int|
                    0 <= k1 < k2 < out.deep_view().len() ==> lex_lt(
                        out.deep_view()[k1],
                        out.deep_view()[k2],
                    ),
                forall|k1: int, k2: int|
                    0 <= k1 < out.deep_view().len() && 0 <= k2 < rem.deep_view().len() ==> lex_lt(
                        out.deep_view()[k1],
                        rem.deep_view()[k2],
                    ),
            decreases rem@.len(),
        {
            let mut best: usize = 0;
            let mut j: usize = 1;
            while j < rem.len()
                invariant
                    rem@.len() > 0,
                    best < j <= rem@.len(),
                    forall|k: int|
                        0 <= k < j && k != best ==> lex_lt(
                            rem.deep_view()[best as int],
                            #[trigger] rem.deep_view()[k],
                        ),
                    forall|k1: int, k2: int|
                        0 <= k1 < k2 < rem.deep_view().len() ==> rem.deep_view()[k1]
                            != rem.deep_view()[k2],
                decreases rem@.len() - j,
            {
                let ghost old_best = best as int;
                if str_lt(rem[j].as_str(), rem[best].as_str()) {
                    best = j;
                }
                proof {
                    let dv = rem.deep_view();
                    if best == j {
                        assert(lex_lt(dv[j as int], dv[old_best]));
                        assert forall|k: int| 0 <= k < j + 1 && k != j implies lex_lt(
                            dv[j as int],
                            #[trigger] dv[k],
                        ) by {
                            if k != old_best {
                                lemma_lex_lt_trans(dv[j as int], dv[old_best], dv[k]);
                            }
                        }
                    } else {
                        if !lex_lt(dv[best as int], dv[j as int]) {
                            lemma_lex_lt_total(dv[best as int], dv[j as int]);
                            assert(dv[best as int] != dv[j as int]);
                            assert(false);
                        }
                    }
                }
                j += 1;
            }
            let ghost rem0 = rem@;
            let ghost rem0_dv = rem.deep_view();
            let ghost out0_dv = out.deep_view();
            let picked = rem.remove(best);
            out.push(picked);
            proof {
                broadcast use vstd::seq_lib::group_to_multiset_ensures;

                let b = rem0_dv[best as int];
                assert(picked == rem0[best as int]);
                assert(picked@ == b);
                assert(rem@ == rem0.remove(best as int));
                assert forall|k: int| 0 <= k < rem@.len() implies rem@[k] == (if k < best {
                    rem0[k]
                } else {
                    rem0[k + 1]
                }) by {}
                assert(rem.deep_view() =~= rem0_dv.remove(best as int));
                assert(out.deep_view() =~= out0_dv.push(b));
                assert(out.deep_view().to_multiset() =~= out0_dv.to_multiset().insert(b));
                assert(rem.deep_view().to_multiset() =~= rem0_dv.to_multiset().remove(b));
                assert(rem0_dv.to_multiset().count(b) >= 1) by {
                    assert(rem0_dv.contains(b));
                }
                assert(out.deep_view().to_multiset().add(rem.deep_view().to_multiset())
                    =~= out0_dv.to_multiset().add(rem0_dv.to_multiset()));
                assert forall|k1: int, k2: int|
                    0 <= k1 < k2 < rem.deep_view().len() implies rem.deep_view()[k1]
                    != rem.deep_view()[k2] by {
                    let m1: int = if k1 < best { k1 } else { k1 + 1 };
                    let m2: int = if k2 < best { k2 } else { k2 + 1 };
                    assert(rem.deep_view()[k1] == rem0_dv[m1] && rem.deep_view()[k2]
                        == rem0_dv[m2]);
                }
                assert forall|k1: int, k2: int|
                    0 <= k1 < out.deep_view().len() && 0 <= k2 < rem.deep_view().len() implies
                    lex_lt(out.deep_view()[k1], rem.deep_view()[k2]) by {
                    let m: int = if k2 < best {
                        k2
                    } else {
                        k2 + 1
                    };
                    assert(rem.deep_view()[k2] == rem0_dv[m]);
                    if k1 < out0_dv.len() {
                        assert(out.deep_view()[k1] == out0_dv[k1]);
                        assert(lex_lt(out0_dv[k1], rem0_dv[m]));
                    } else {
                        assert(out.deep_view()[k1] == b);
                        assert(m != best);
                        assert(lex_lt(b, rem0_dv[m]));
                    }
                }
            }
        }
        proof {
            broadcast use vstd::seq_lib::group_to_multiset_ensures;

            assert(rem.deep_view() =~= Seq::<Seq<char>>::empty());
            assert(rem.deep_view().to_multiset() =~= vstd::multiset::Multiset::<Seq<char>>::empty());
            assert(out.deep_view().to_multiset() =~= target.to_multiset());
        }
        out
    }

    /// Appends a comment to an issue, created at `now`; returns the new
    /// comment id.
    pub fn add_comment(&mut self, issue_id: u64, content: String, now: u64) -> (r: Result<
        u64,
        StoreError,
    >)
        requires
            old(self)@.wf(),
        ensures
            final(self)@.wf(),
            match r {
                Ok(id) => {
                    &&& old(self)@.has_issue(issue_id)
                    &&& old(self)@.next_comment_id < u64::MAX
                    &&& id == old(self)@.next_comment_id
                    &&& final(self)@ == (StoreV {
                        comments: old(self)@.comments.push(
                            Comment { id, issue_id, content, created_at: now },
                        ),
                        next_comment_id: (id + 1) as u64,
                        ..old(self)@
                    })
                },
                Err(e) => {
                    &&& final(self)@ == old(self)@
                    &&& (match e {
                        StoreError::IssueNotFound { id: n } => n == issue_id && !old(
                            self,
                        )@.has_issue(issue_id),
                        StoreError::StorageFull => old(self)@.has_issue(issue_id) && old(
                            self,
                        )@.next_comment_id == u64::MAX,
                        _ => false,
                    })
                },
            },
    {
        if self.find_issue_index(issue_id).is_none() {
            return Err(StoreError::IssueNotFound { id: issue_id });
        }
        if self.next_comment_id == u64::MAX {
            return Err(StoreError::StorageFull);
        }
        let id = self.next_comment_id;
        self.comments.push(Comment { id, issue_id, content, created_at: now });
        self.next_comment_id = id + 1;
        Ok(id)
    }

    /// The comments of an issue, in creation (id) order — the same as
    /// ordering by `created_at` whenever the caller's clock is monotone,
    /// since ids are assigned in call order.
    pub fn get_comments(&self, issue_id: u64) -> (r: Vec<Comment>)
        requires
            self@.wf(),
        ensures
            r@ == comments_spec(self@.comments, issue_id),
    {
        let ghost pre = self@.comments;
        let mut r: Vec<Comment> = Vec::new();
        let mut i: usize = 0;
        proof {
            assert(pre.subrange(0, 0) =~= Seq::<Comment>::empty());
            assert(r@ =~= comments_spec(pre.subrange(0, 0), issue_id));
        }
        while i < self.comments.len()
            invariant
                pre == self@.comments,
                i <= pre.len(),
                r@ == comments_spec(pre.subrange(0, i as int), issue_id),
            decreases pre.len() - i,
        {
            proof {
                assert(pre.subrange(0, i + 1).drop_last() =~= pre.subrange(0, i as int));
                assert(pre.subrange(0, i + 1).last() == pre[i as int]);
            }
            if self.comments[i].issue_id == issue_id {
                r.push(self.comments[i].duplicate());
            }
            i += 1;
        }
        proof {
            assert(pre.subrange(0, pre.len() as int) =~= pre);
        }
        r
    }

    /// Adds the edge `blocker -> blocked`. Both issues must exist and be
    /// distinct; a duplicate edge is a no-op reported as `false`, not an
    /// error.
    pub fn add_dependency(&mut self, blocked_id: u64, blocker_id: u64) -> (r: Result<
        bool,
        StoreError,
    >)
        requires
            old(self)@.wf(),
        ensures
            final(self)@.wf(),
            match r {
                Ok(true) => {
                    &&& old(self)@.has_issue(blocked_id)
                    &&& old(self)@.has_issue(blocker_id)
                    &&& blocked_id != blocker_id
                    &&& !old(self)@.dep_exists(blocked_id, blocker_id)
                    &&& final(self)@ == (StoreV {
                        deps: old(self)@.deps.push(Dep { blocker_id, blocked_id }),
                        ..old(self)@
                    })
                },
                Ok(false) => {
                    &&& old(self)@.dep_exists(blocked_id, blocker_id)
                    &&& final(self)@ == old(self)@
                },
                Err(e) => {
                    &&& final(self)@ == old(self)@
                    &&& (match e {
                        StoreError::IssueNotFound { id: n } => (n == blocked_id && !old(
                            self,
                        )@.has_issue(blocked_id)) || (n == blocker_id && old(self)@.has_issue(
                            blocked_id,
                        ) && !old(self)@.has_issue(blocker_id)),
                        StoreError::SelfBlocking => blocked_id == blocker_id && old(
                            self,
                        )@.has_issue(blocked_id) && old(self)@.has_issue(blocker_id),
                        _ => false,
                    })
                },
            },
    {
        if self.find_issue_index(blocked_id).is_none() {
            return Err(StoreError::IssueNotFound { id: blocked_id });
        }
        if self.find_issue_index(blocker_id).is_none() {
            return Err(StoreError::IssueNotFound { id: blocker_id });
        }
        if blocked_id == blocker_id {
            return Err(StoreError::SelfBlocking);
        }
        let ghost pre = self@;
        let mut i: usize = 0;
        while i < self.deps.len()
            invariant
                self@.wf(),
                self@ == pre,
                pre == old(self)@,
                i <= self@.deps.len(),
                forall|j: int|
                    0 <= j < i ==> self@.deps[j] != (Dep { blocker_id, blocked_id }),
            decreases self@.deps.len() - i,
        {
            if self.deps[i].blocker_id == blocker_id && self.deps[i].blocked_id == blocked_id {
                proof {
                    assert(self@.deps[i as int] == (Dep { blocker_id, blocked_id }));
                }
                return Ok(false);
            }
            i += 1;
        }
        proof {
            if pre.dep_exists(blocked_id, blocker_id) {
                let j = choose|j: int|
                    0 <= j < pre.deps.len() && pre.deps[j] == (Dep { blocker_id, blocked_id });
                assert(false);
            }
        }
        self.deps.push(Dep { blocker_id, blocked_id });
        proof {
            let t = self@.deps;
            assert forall|a: int, b: int| 0 <= a < b < t.len() implies t[a] != t[b] by {
                if b == t.len() - 1 {
                    assert(t[a] == pre.deps[a]);
                }
            }
        }
        Ok(true)
    }

    /// Removes the edge `blocker -> blocked`; `false` when it was absent.
    pub fn remove_dependency(&mut self, blocked_id: u64, blocker_id: u64) -> (r: bool)
        requires
            old(self)@.wf(),
        ensures
            final(self)@.wf(),
            r == old(self)@.dep_exists(blocked_id, blocker_id),
            !r ==> final(self)@ == old(self)@,
            r ==> exists|i: int|
                0 <= i < old(self)@.deps.len() && old(self)@.deps[i] == (Dep {
                    blocker_id,
                    blocked_id,
                }) && final(self)@ == (StoreV { deps: old(self)@.deps.remove(i), ..old(self)@ }),
            !final(self)@.dep_exists(blocked_id, blocker_id),
    {
        let ghost pre = self@;
        let mut i: usize = 0;
        while i < self.deps.len()
            invariant
                self@.wf(),
                self@ == pre,
                pre == old(self)@,
                i <= self@.deps.len(),
                forall|j: int|
                    0 <= j < i ==> self@.deps[j] != (Dep { blocker_id, blocked_id }),
            decreases self@.deps.len() - i,
        {
            if self.deps[i].blocker_id == blocker_id && self.deps[i].blocked_id == blocked_id {
                proof {
                    assert(self@.deps[i as int] == (Dep { blocker_id, blocked_id }));
                }
                self.deps.remove(i);
                proof {
                    let s = pre.deps;
                    let t = self@.deps;
                    assert(t == s.remove(i as int));
                    assert forall|k: int| 0 <= k < t.len() implies t[k] == (if k < i {
                        s[k]
                    } else {
                        s[k + 1]
                    }) by {}
                    assert forall|k1: int, k2: int| 0 <= k1 < k2 < t.len() implies t[k1]
                        != t[k2] by {
                        let m1: int = if k1 < i { k1 } else { k1 + 1 };
                        let m2: int = if k2 < i { k2 } else { k2 + 1 };
                        assert(t[k1] == s[m1] && t[k2] == s[m2]);
                    }
                    assert(!self@.dep_exists(blocked_id, blocker_id)) by {
                        if self@.dep_exists(blocked_id, blocker_id) {
                            let k = choose|k: int|
                                0 <= k < t.len() && t[k] == (Dep { blocker_id, blocked_id });
                            let m: int = if k < i { k } else { k + 1 };
                            assert(s[m] == (Dep { blocker_id, blocked_id }));
                            if m > i {
                                assert(s[i as int] == s[m]);
                            }
                        }
                    }
                    assert(s[i as int] == (Dep { blocker_id, blocked_id }) && self@ == (StoreV {
                        deps: s.remove(i as int),
                        ..pre
                    }));
                }
                return true;
            }
            i += 1;
        }
        proof {
            if pre.dep_exists(blocked_id, blocker_id) {
                let j = choose|j: int|
                    0 <= j < pre.deps.len() && pre.deps[j] == (Dep { blocker_id, blocked_id });
                assert(false);
            }
        }
        false
    }
}

} // verus!
