//! The next-issue recommendation scorer: ranks the ready, top-level
//! issues by priority weight, with a bonus for parents whose subissues are
//! partly done, and recommends the top pick with up to three runners-up.
//! If only subissues are ready, the first of them is recommended instead.

use vstd::prelude::*;
use vstd::multiset::Multiset;
use crate::model::{priority_name_spec, priority_weight_spec, weight_of, Issue, Priority, Status};
use crate::queries::{filter_pred, select_spec, IssueFilter};
use crate::store::{Store, StoreV};

verus! {

/// How many issues have this parent.
#[verifier::opaque]
pub open spec fn children_count(s: Seq<Issue>, parent: u64) -> int
    decreases s.len(),
{
    if s.len() == 0 {
        0
    } else {
        children_count(s.drop_last(), parent) + (if s.last().parent_id == Some(parent) {
            1int
        } else {
            0int
        })
    }
}

/// How many issues with this parent are closed.
#[verifier::opaque]
pub open spec fn closed_children_count(s: Seq<Issue>, parent: u64) -> int
    decreases s.len(),
{
    if s.len() == 0 {
        0
    } else {
        closed_children_count(s.drop_last(), parent) + (if s.last().parent_id == Some(parent)
            && s.last().status == Status::Closed {
            1int
        } else {
            0int
        })
    }
}

/// The finish-what-you-started bonus: granted exactly when some but not
/// all subissues are closed.
pub open spec fn progress_bonus(s: Seq<Issue>, parent: u64) -> int {
    if 0 < closed_children_count(s, parent) < children_count(s, parent) {
        50
    } else {
        0
    }
}

/// The score of an issue: priority weight times one hundred, plus the
/// progress bonus.
pub open spec fn score_of(s: Seq<Issue>, iss: Issue) -> int {
    priority_weight_spec(priority_name_spec(iss.priority)) * 100 + progress_bonus(s, iss.id)
}

/// The ranking order: higher score first; equal scores keep ascending id
/// order, as a stable sort of the readiness query would.
pub open spec fn ranks_before(s: Seq<Issue>, a: Issue, b: Issue) -> bool {
    score_of(s, a) > score_of(s, b) || (score_of(s, a) == score_of(s, b) && a.id < b.id)
}

/// The top-level issues of a sequence: those without a parent.
pub open spec fn top_level(s: Seq<Issue>) -> Seq<Issue>
    decreases s.len(),
{
    if s.len() == 0 {
        Seq::empty()
    } else {
        let rest = top_level(s.drop_last());
        if s.last().parent_id is None {
            rest.push(s.last())
        } else {
            rest
        }
    }
}

/// What `top_level` returns: exactly the parentless rows, in order, ids
/// still ascending when they were.
pub proof fn lemma_top_level_props(s: Seq<Issue>)
    ensures
        forall|k: int|
            0 <= k < top_level(s).len() ==> ((#[trigger] top_level(s)[k]).parent_id is None)
                && exists|j: int| 0 <= j < s.len() && s[j] == top_level(s)[k],
        forall|j: int|
            0 <= j < s.len() && ((#[trigger] s[j]).parent_id is None) ==> top_level(s).contains(
                s[j],
            ),
        (forall|i: int, j: int| 0 <= i < j < s.len() ==> s[i].id < s[j].id) ==> (forall|
            k1: int,
            k2: int,
        | 0 <= k1 < k2 < top_level(s).len() ==> top_level(s)[k1].id < top_level(s)[k2].id),
    decreases s.len(),
{
    let r = top_level(s);
    if s.len() > 0 {
        let s0 = s.drop_last();
        lemma_top_level_props(s0);
        let r0 = top_level(s0);
        assert forall|k: int| 0 <= k < r.len() implies ((#[trigger] r[k]).parent_id is None)
            && exists|j: int| 0 <= j < s.len() && s[j] == r[k] by {
            if k < r0.len() {
                assert(r[k] == r0[k]);
                let j = choose|j: int| 0 <= j < s0.len() && s0[j] == r0[k];
                assert(s[j] == r[k]);
            } else {
                assert(s[s.len() - 1] == r[k]);
            }
        }
        assert forall|j: int| 0 <= j < s.len() && ((#[trigger] s[j]).parent_id is None) implies r
            .contains(s[j]) by {
            if j < s.len() - 1 {
                assert(s0[j] == s[j]);
                assert(r0.contains(s0[j]));
                let k = choose|k: int| 0 <= k < r0.len() && r0[k] == s0[j];
                assert(r[k] == s[j]);
            } else {
                assert(r[r.len() - 1] == s[j]);
            }
        }
        if forall|i: int, j: int| 0 <= i < j < s.len() ==> s[i].id < s[j].id {
            assert forall|i: int, j: int| 0 <= i < j < s0.len() implies s0[i].id < s0[j].id by {
                assert(s0[i] == s[i] && s0[j] == s[j]);
            }
            assert forall|k1: int, k2: int| 0 <= k1 < k2 < r.len() implies r[k1].id < r[k2].id by {
                if k2 < r0.len() {
                    assert(r[k1] == r0[k1] && r[k2] == r0[k2]);
                } else {
                    assert(r[k1] == r0[k1]);
                    let j = choose|j: int| 0 <= j < s0.len() && s0[j] == r0[k1];
                    assert(s[j].id < s[s.len() - 1].id);
                }
            }
        }
    }
}

/// What a ranked candidate list is: the candidates exactly, in strictly
/// descending rank order.
pub open spec fn ranked_props(v: StoreV, q: Seq<Issue>, cands: Seq<Issue>) -> bool {
    &&& q.to_multiset() == cands.to_multiset()
    &&& forall|k1: int, k2: int| 0 <= k1 < k2 < q.len() ==> ranks_before(v.issues, q[k1], q[k2])
}

/// The ready set of a store, in table order.
pub open spec fn ready_seq(v: StoreV) -> Seq<Issue> {
    select_spec(v.issues, v, IssueFilter::Ready)
}

/// What `next` recommends.
#[derive(Debug)]
pub enum Recommendation {
    /// Nothing is ready to work on.
    Nothing,
    /// Every ready issue is a subissue; the first of them, unscored.
    Subissue(Issue),
    /// The ranked top-level pick and up to three runners-up.
    Ranked { top: Issue, runners_up: Vec<Issue> },
}

impl Store {
    /// The closed/total progress of an issue's subissues; nothing when it
    /// has none.
    pub fn calculate_progress(&self, id: u64) -> (r: Option<(usize, usize)>)
        requires
            self@.wf(),
        ensures
            match r {
                Some(p) => children_count(self@.issues, id) > 0 && p.0 == closed_children_count(
                    self@.issues,
                    id,
                ) && p.1 == children_count(self@.issues, id),
                None => children_count(self@.issues, id) == 0,
            },
    {
        let ghost s = self@.issues;
        let mut total: usize = 0;
        let mut closed: usize = 0;
        let mut i: usize = 0;
        proof {
            reveal(children_count);
            reveal(closed_children_count);
            assert(s.subrange(0, 0) =~= Seq::<Issue>::empty());
        }
        while i < self.issues.len()
            invariant
                s == self@.issues,
                i <= s.len(),
                total == children_count(s.subrange(0, i as int), id),
                closed == closed_children_count(s.subrange(0, i as int), id),
                closed <= total <= i,
                children_count(s.subrange(0, i as int), id) >= 0,
                closed_children_count(s.subrange(0, i as int), id) >= 0,
            decreases s.len() - i,
        {
            proof {
                reveal(children_count);
                reveal(closed_children_count);
                assert(s.subrange(0, i + 1).drop_last() =~= s.subrange(0, i as int));
                assert(s.subrange(0, i + 1).last() == s[i as int]);
            }
            let is_child = match self.issues[i].parent_id {
                Some(p) => p == id,
                None => false,
            };
            if is_child {
                total += 1;
                let is_closed = match self.issues[i].status {
                    Status::Closed => true,
                    _ => false,
                };
                if is_closed {
                    closed += 1;
                }
            }
            i += 1;
        }
        proof {
            assert(s.subrange(0, s.len() as int) =~= s);
        }
        if total == 0 {
            None
        } else {
            Some((closed, total))
        }
    }

    /// The score the recommender gives an issue.
    pub fn score_issue(&self, iss: &Issue) -> (r: u32)
        requires
            self@.wf(),
        ensures
            r == score_of(self@.issues, *iss),
    {
        let weight = weight_of(iss.priority);
        let bonus: u32 = match self.calculate_progress(iss.id) {
            Some((closed, total)) => {
                if closed > 0 && closed < total {
                    50
                } else {
                    0
                }
            },
            None => 0,
        };
        weight * 100 + bonus
    }

    /// Whether `a` ranks strictly before `b`.
    fn ranks_before_exec(&self, a: &Issue, b: &Issue) -> (r: bool)
        requires
            self@.wf(),
        ensures
            r == ranks_before(self@.issues, *a, *b),
    {
        let sa = self.score_issue(a);
        let sb = self.score_issue(b);
        sa > sb || (sa == sb && a.id < b.id)
    }

    /// Sorts candidate issues into strictly descending rank order by
    /// selection: each step takes the best-ranked issue that remains.
    fn sort_by_rank(&self, cands_vec: Vec<Issue>, Ghost(cands): Ghost<Seq<Issue>>) -> (r: Vec<
        Issue,
    >)
        requires
            self@.wf(),
            cands_vec@ == cands,
            forall|k1: int, k2: int| 0 <= k1 < k2 < cands.len() ==> cands[k1].id != cands[k2].id,
        ensures
            r@.to_multiset() == cands.to_multiset(),
            forall|k1: int, k2: int|
                0 <= k1 < k2 < r@.len() ==> ranks_before(self@.issues, r@[k1], r@[k2]),
    {
        let ghost v = self@;
        let mut rem = cands_vec;
        let mut out: Vec<Issue> = Vec::new();
        proof {
            broadcast use vstd::seq_lib::group_to_multiset_ensures;

            assert(out@.to_multiset().add(rem@.to_multiset()) =~= cands.to_multiset());
        }
        while rem.len() > 0
            invariant
                self@ == v,
                v.wf(),
                out@.to_multiset().add(rem@.to_multiset()) == cands.to_multiset(),
                forall|k1: int, k2: int| 0 <= k1 < k2 < rem@.len() ==> rem@[k1].id != rem@[k2].id,
                forall|k1: int, k2: int|
                    0 <= k1 < k2 < out@.len() ==> ranks_before(v.issues, out@[k1], out@[k2]),
                forall|k1: int, k2: int|
                    0 <= k1 < out@.len() && 0 <= k2 < rem@.len() ==> ranks_before(
                        v.issues,
                        out@[k1],
                        rem@[k2],
                    ),
            decreases rem@.len(),
        {
            let mut best: usize = 0;
            let mut j: usize = 1;
            while j < rem.len()
                invariant
                    self@ == v,
                    v.wf(),
                    rem@.len() > 0,
                    best < j <= rem@.len(),
                    forall|k: int|
                        0 <= k < j && k != best ==> ranks_before(
                            v.issues,
                            rem@[best as int],
                            #[trigger] rem@[k],
                        ),
                    forall|k1: int, k2: int|
                        0 <= k1 < k2 < rem@.len() ==> rem@[k1].id != rem@[k2].id,
                decreases rem@.len() - j,
            {
                if self.ranks_before_exec(&rem[j], &rem[best]) {
                    best = j;
                }
                proof {
                    if best != j && !ranks_before(v.issues, rem@[best as int], rem@[j as int]) {
                        assert(rem@[best as int].id != rem@[j as int].id);
                        assert(false);
                    }
                }
                j += 1;
            }
            let ghost rem0 = rem@;
            let ghost out0 = out@;
            let picked = rem.remove(best);
            out.push(picked);
            proof {
                broadcast use vstd::seq_lib::group_to_multiset_ensures;

                let b = rem0[best as int];
                assert(rem@ == rem0.remove(best as int));
                assert(out@ == out0.push(b));
                assert(out@.to_multiset() =~= out0.to_multiset().insert(b));
                assert(rem@.to_multiset() =~= rem0.to_multiset().remove(b));
                assert(rem0.to_multiset().count(b) >= 1) by {
                    assert(rem0.contains(b));
                }
                assert(out@.to_multiset().add(rem@.to_multiset()) =~= out0.to_multiset().add(
                    rem0.to_multiset(),
                ));
                assert forall|k: int| 0 <= k < rem@.len() implies rem@[k] == (if k < best {
                    rem0[k]
                } else {
                    rem0[k + 1]
                }) by {}
                assert forall|k1: int, k2: int|
                    0 <= k1 < k2 < rem@.len() implies rem@[k1].id != rem@[k2].id by {
                    let m1: int = if k1 < best { k1 } else { k1 + 1 };
                    let m2: int = if k2 < best { k2 } else { k2 + 1 };
                    assert(rem@[k1] == rem0[m1] && rem@[k2] == rem0[m2]);
                }
                assert forall|k1: int, k2: int|
                    0 <= k1 < out@.len() && 0 <= k2 < rem@.len() implies ranks_before(
                    v.issues,
                    out@[k1],
                    rem@[k2],
                ) by {
                    let m: int = if k2 < best {
                        k2
                    } else {
                        k2 + 1
                    };
                    assert(rem@[k2] == rem0[m]);
                    if k1 < out0.len() {
                        assert(out@[k1] == out0[k1]);
                        assert(ranks_before(v.issues, out0[k1], rem0[m]));
                    } else {
                        assert(out@[k1] == b);
                        assert(m != best);
                        assert(ranks_before(v.issues, b, rem0[m]));
                    }
                }
            }
        }
        proof {
            broadcast use vstd::seq_lib::group_to_multiset_ensures;

            assert(rem@ =~= Seq::<Issue>::empty());
            assert(rem@.to_multiset() =~= Multiset::<Issue>::empty());
            assert(out@.to_multiset() =~= cands.to_multiset());
        }
        out
    }

    /// The ready, top-level issues in strictly descending rank order:
    /// highest score first, ties by ascending id.
    pub fn rank_ready(&self) -> (r: Vec<Issue>)
        requires
            self@.wf(),
        ensures
            ranked_props(self@, r@, top_level(ready_seq(self@))),
    {
        let ready = self.list_ready_issues();
        let ghost cands = top_level(ready_seq(self@));
        let mut rem: Vec<Issue> = Vec::new();
        let mut i: usize = 0;
        proof {
            assert(ready@.subrange(0, 0) =~= Seq::<Issue>::empty());
            assert(rem@ =~= top_level(ready@.subrange(0, 0)));
        }
        while i < ready.len()
            invariant
                i <= ready@.len(),
                rem@ == top_level(ready@.subrange(0, i as int)),
            decreases ready@.len() - i,
        {
            proof {
                assert(ready@.subrange(0, i + 1).drop_last() =~= ready@.subrange(0, i as int));
                assert(ready@.subrange(0, i + 1).last() == ready@[i as int]);
            }
            let keep = match ready[i].parent_id {
                Some(_) => false,
                None => true,
            };
            if keep {
                rem.push(ready[i].duplicate());
            }
            i += 1;
        }
        proof {
            assert(ready@.subrange(0, ready@.len() as int) =~= ready@);
            assert(rem@ == cands);
            crate::queries::lemma_select_spec_props(self@.issues, self@, IssueFilter::Ready);
            lemma_top_level_props(ready_seq(self@));
        }
        self.sort_by_rank(rem, Ghost(cands))
    }

    /// The recommendation: the top-ranked ready top-level issue with up to
    /// three runners-up; the first ready subissue when only subissues are
    /// ready; nothing when nothing is ready.
    pub fn recommend_next(&self) -> (r: Recommendation)
        requires
            self@.wf(),
        ensures
            match r {
                Recommendation::Nothing => ready_seq(self@).len() == 0,
                Recommendation::Subissue(iss) => ready_seq(self@).len() > 0 && top_level(
                    ready_seq(self@),
                ).len() == 0 && iss == ready_seq(self@)[0],
                Recommendation::Ranked { top, runners_up } => exists|q: Seq<Issue>|
                    #![auto]
                    ranked_props(self@, q, top_level(ready_seq(self@))) && q.len() > 0 && top
                        == q[0] && runners_up@ == q.subrange(
                        1,
                        if q.len() > 4 {
                            4
                        } else {
                            q.len() as int
                        },
                    ),
            },
    {
        let ready = self.list_ready_issues();
        if ready.len() == 0 {
            proof {
                assert(ready_seq(self@).len() == 0);
            }
            return Recommendation::Nothing;
        }
        let ranked = self.rank_ready();
        if ranked.len() == 0 {
            proof {
                broadcast use vstd::seq_lib::group_to_multiset_ensures;

                assert(ranked@.to_multiset().len() == 0);
                assert(top_level(ready_seq(self@)).to_multiset().len() == 0);
                assert(top_level(ready_seq(self@)).len() == 0);
            }
            return Recommendation::Subissue(ready[0].duplicate());
        }
        let top = ranked[0].duplicate();
        let mut runners_up: Vec<Issue> = Vec::new();
        let mut i: usize = 1;
        let stop: usize = if ranked.len() > 4 {
            4
        } else {
            ranked.len()
        };
        while i < stop
            invariant
                1 <= i <= stop,
                stop == (if ranked@.len() > 4 {
                    4int
                } else {
                    ranked@.len() as int
                }),
                stop <= ranked@.len(),
                runners_up@ == ranked@.subrange(1, i as int),
            decreases stop - i,
        {
            runners_up.push(ranked[i].duplicate());
            proof {
                assert(runners_up@ =~= ranked@.subrange(1, i + 1));
            }
            i += 1;
        }
        proof {
            let cands = top_level(ready_seq(self@));
            assert(ranked_props(self@, ranked@, cands) && ranked@.len() > 0 && top == ranked@[0]
                && runners_up@ == ranked@.subrange(
                1,
                if ranked@.len() > 4 {
                    4
                } else {
                    ranked@.len() as int
                },
            ));
        }
        Recommendation::Ranked { top, runners_up }
    }
}

} // verus!
