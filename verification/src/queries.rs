//! Read-only queries over the store: status checks, filtered listing,
//! subissue listing, direct dependency neighbours, and the live blocked and
//! ready sets. Listing goes through a typed filter — an enumerated
//! predicate, never assembled query text.

use vstd::prelude::*;
use crate::model::{
    priority_name, priority_name_spec, status_name, status_name_spec, Dep, Issue, Status,
};
use crate::store::{idx_of, issues_sorted, lemma_sorted_index_unique, Store, StoreV};
use crate::text::str_eq;

verus! {

/// Whether a status filter string admits a status: absent means no
/// predicate, `all` bypasses it, anything else must equal the status name.
pub open spec fn status_filter_matches(filter: Option<Seq<char>>, st: Status) -> bool {
    match filter {
        None => true,
        Some(f) => f == "all"@ || status_name_spec(st) == f,
    }
}

/// The combined listing predicate of the three optional filters: status,
/// label (the issue carries it) and priority.
pub open spec fn list_pred(
    v: StoreV,
    iss: Issue,
    status: Option<Seq<char>>,
    label: Option<Seq<char>>,
    priority: Option<Seq<char>>,
) -> bool {
    &&& status_filter_matches(status, iss.status)
    &&& match label {
        None => true,
        Some(l) => v.has_label(iss.id, l),
    }
    &&& match priority {
        None => true,
        Some(p) => priority_name_spec(iss.priority) == p,
    }
}

/// A typed issue selector: one enumerated predicate per structural query.
#[derive(Clone, Copy, Debug, PartialEq, Eq, Structural)]
pub enum IssueFilter {
    /// The direct subissues of a parent.
    Children { parent: u64 },
    /// The archived issues.
    ArchivedOnly,
    /// The open issues with at least one open blocker.
    BlockedOpen,
    /// The ready issues: open with no open blocker.
    Ready,
}

/// What a typed selector admits.
pub open spec fn filter_pred(v: StoreV, f: IssueFilter, iss: Issue) -> bool {
    match f {
        IssueFilter::Children { parent } => iss.parent_id == Some(parent),
        IssueFilter::ArchivedOnly => iss.status == Status::Archived,
        IssueFilter::BlockedOpen => iss.status == Status::Open && v.has_open_blocker(iss.id),
        IssueFilter::Ready => iss.status == Status::Open && !v.has_open_blocker(iss.id),
    }
}

/// The issues of `s` that a typed selector admits, in table order: the
/// recursive filter, from the front.
pub open spec fn select_spec(s: Seq<Issue>, v: StoreV, f: IssueFilter) -> Seq<Issue>
    decreases s.len(),
{
    if s.len() == 0 {
        Seq::empty()
    } else {
        let rest = select_spec(s.drop_last(), v, f);
        if filter_pred(v, f, s.last()) {
            rest.push(s.last())
        } else {
            rest
        }
    }
}

/// The issues of `s` that pass the three listing filters, in reverse table
/// order (newest first).
pub open spec fn list_spec(
    s: Seq<Issue>,
    v: StoreV,
    sf: Option<Seq<char>>,
    lf: Option<Seq<char>>,
    pf: Option<Seq<char>>,
) -> Seq<Issue>
    decreases s.len(),
{
    if s.len() == 0 {
        Seq::empty()
    } else {
        let rest = list_spec(s.drop_first(), v, sf, lf, pf);
        if list_pred(v, s[0], sf, lf, pf) {
            rest.push(s[0])
        } else {
            rest
        }
    }
}

/// What `select_spec` returns: every result row is a table row that the
/// selector admits, every admitted table row appears, and on a sorted
/// table the result ids ascend.
pub proof fn lemma_select_spec_props(s: Seq<Issue>, v: StoreV, f: IssueFilter)
    ensures
        forall|k: int|
            0 <= k < select_spec(s, v, f).len() ==> filter_pred(
                v,
                f,
                #[trigger] select_spec(s, v, f)[k],
            ) && exists|j: int| 0 <= j < s.len() && s[j] == select_spec(s, v, f)[k],
        forall|j: int|
            0 <= j < s.len() && filter_pred(v, f, #[trigger] s[j]) ==> select_spec(
                s,
                v,
                f,
            ).contains(s[j]),
        issues_sorted(s) ==> (forall|k1: int, k2: int|
            0 <= k1 < k2 < select_spec(s, v, f).len() ==> select_spec(s, v, f)[k1].id < select_spec(
                s,
                v,
                f,
            )[k2].id),
    decreases s.len(),
{
    let r = select_spec(s, v, f);
    if s.len() > 0 {
        let s0 = s.drop_last();
        lemma_select_spec_props(s0, v, f);
        let r0 = select_spec(s0, v, f);
        assert forall|k: int|
            0 <= k < r.len() implies filter_pred(v, f, #[trigger] r[k]) && exists|j: int|
            0 <= j < s.len() && s[j] == r[k] by {
            if k < r0.len() {
                assert(r[k] == r0[k]);
                let j = choose|j: int| 0 <= j < s0.len() && s0[j] == r0[k];
                assert(s[j] == r[k]);
            } else {
                assert(r[k] == s.last());
                assert(s[s.len() - 1] == r[k]);
            }
        }
        assert forall|j: int| 0 <= j < s.len() && filter_pred(v, f, #[trigger] s[j]) implies r
            .contains(s[j]) by {
            if j < s.len() - 1 {
                assert(s0[j] == s[j]);
                assert(r0.contains(s0[j]));
                let k = choose|k: int| 0 <= k < r0.len() && r0[k] == s0[j];
                assert(r[k] == s[j]);
            } else {
                assert(r[r.len() - 1] == s[j]);
            }
        }
        if issues_sorted(s) {
            assert(issues_sorted(s0));
            assert forall|k1: int, k2: int| 0 <= k1 < k2 < r.len() implies r[k1].id < r[k2].id by {
                if k2 < r0.len() {
                    assert(r[k1] == r0[k1] && r[k2] == r0[k2]);
                } else {
                    assert(r[k1] == r0[k1]);
                    let j = choose|j: int| 0 <= j < s0.len() && s0[j] == r0[k1];
                    assert(s[j].id < s[s.len() - 1].id);
                }
            }
        }
    }
}

/// What `list_spec` returns: every result row is a table row that the
/// filters admit, every admitted table row appears, and on a sorted table
/// the result ids descend (newest first).
pub proof fn lemma_list_spec_props(
    s: Seq<Issue>,
    v: StoreV,
    sf: Option<Seq<char>>,
    lf: Option<Seq<char>>,
    pf: Option<Seq<char>>,
)
    ensures
        forall|k: int|
            0 <= k < list_spec(s, v, sf, lf, pf).len() ==> list_pred(
                v,
                #[trigger] list_spec(s, v, sf, lf, pf)[k],
                sf,
                lf,
                pf,
            ) && exists|j: int| 0 <= j < s.len() && s[j] == list_spec(s, v, sf, lf, pf)[k],
        forall|j: int|
            0 <= j < s.len() && list_pred(v, #[trigger] s[j], sf, lf, pf) ==> list_spec(
                s,
                v,
                sf,
                lf,
                pf,
            ).contains(s[j]),
        issues_sorted(s) ==> (forall|k1: int, k2: int|
            0 <= k1 < k2 < list_spec(s, v, sf, lf, pf).len() ==> list_spec(s, v, sf, lf, pf)[k1].id
                > list_spec(s, v, sf, lf, pf)[k2].id),
    decreases s.len(),
{
    let r = list_spec(s, v, sf, lf, pf);
    if s.len() > 0 {
        let s0 = s.drop_first();
        lemma_list_spec_props(s0, v, sf, lf, pf);
        let r0 = list_spec(s0, v, sf, lf, pf);
        assert forall|k: int|
            0 <= k < r.len() implies list_pred(v, #[trigger] r[k], sf, lf, pf) && exists|j: int|
            0 <= j < s.len() && s[j] == r[k] by {
            if k < r0.len() {
                assert(r[k] == r0[k]);
                let j = choose|j: int| 0 <= j < s0.len() && s0[j] == r0[k];
                assert(s[j + 1] == r[k]);
            } else {
                assert(r[k] == s[0]);
            }
        }
        assert forall|j: int| 0 <= j < s.len() && list_pred(v, #[trigger] s[j], sf, lf, pf) implies
            r.contains(s[j]) by {
            if j > 0 {
                assert(s0[j - 1] == s[j]);
                assert(r0.contains(s0[j - 1]));
                let k = choose|k: int| 0 <= k < r0.len() && r0[k] == s0[j - 1];
                assert(r[k] == s[j]);
            } else {
                assert(r[r.len() - 1] == s[j]);
            }
        }
        if issues_sorted(s) {
            assert(issues_sorted(s0)) by {
                assert forall|i1: int, i2: int| 0 <= i1 < i2 < s0.len() implies s0[i1].id
                    < s0[i2].id by {
                    assert(s0[i1] == s[i1 + 1] && s0[i2] == s[i2 + 1]);
                }
            }
            assert forall|k1: int, k2: int| 0 <= k1 < k2 < r.len() implies r[k1].id > r[k2].id by {
                if k2 < r0.len() {
                    assert(r[k1] == r0[k1] && r[k2] == r0[k2]);
                } else {
                    assert(r[k1] == r0[k1]);
                    let j = choose|j: int| 0 <= j < s0.len() && s0[j] == r0[k1];
                    assert(s[j + 1] == r[k1]);
                    assert(s[0].id < s[j + 1].id);
                }
            }
        }
    }
}

impl Store {
    /// Whether the issue exists and is open.
    pub fn is_open_issue(&self, id: u64) -> (r: bool)
        requires
            self@.wf(),
        ensures
            r == self@.is_open(id),
    {
        match self.find_issue_index(id) {
            Some(i) => {
                proof {
                    lemma_sorted_index_unique(self@.issues, i as int, idx_of(self@.issues, id));
                }
                match self.issues[i].status {
                    Status::Open => true,
                    _ => false,
                }
            },
            None => false,
        }
    }

    /// Whether some open issue blocks this one.
    pub fn has_open_blocker(&self, id: u64) -> (r: bool)
        requires
            self@.wf(),
        ensures
            r == self@.has_open_blocker(id),
    {
        let mut i: usize = 0;
        while i < self.deps.len()
            invariant
                self@.wf(),
                i <= self@.deps.len(),
                forall|j: int|
                    0 <= j < i ==> !(self@.deps[j].blocked_id == id && self@.is_open(
                        self@.deps[j].blocker_id,
                    )),
            decreases self@.deps.len() - i,
        {
            if self.deps[i].blocked_id == id {
                if self.is_open_issue(self.deps[i].blocker_id) {
                    proof {
                        let b = self@.deps[i as int].blocker_id;
                        assert(self@.deps[i as int] == (Dep { blocker_id: b, blocked_id: id }));
                        assert(self@.dep_exists(id, b));
                    }
                    return true;
                }
            }
            i += 1;
        }
        proof {
            if self@.has_open_blocker(id) {
                let b = choose|b: u64| #[trigger] self@.dep_exists(id, b) && self@.is_open(b);
                let j = choose|j: int|
                    0 <= j < self@.deps.len() && self@.deps[j] == (Dep {
                        blocker_id: b,
                        blocked_id: id,
                    });
                assert(!(self@.deps[j].blocked_id == id && self@.is_open(
                    self@.deps[j].blocker_id,
                )));
            }
        }
        false
    }

    /// Whether the issue is ready: open with no open blocker.
    pub fn is_ready_issue(&self, id: u64) -> (r: bool)
        requires
            self@.wf(),
        ensures
            r == self@.is_ready(id),
    {
        self.is_open_issue(id) && !self.has_open_blocker(id)
    }

    /// Whether the issue carries this label.
    pub fn has_label(&self, issue_id: u64, name: &str) -> (r: bool)
        ensures
            r == self@.has_label(issue_id, name@),
    {
        let mut i: usize = 0;
        while i < self.labels.len()
            invariant
                i <= self@.labels.len(),
                forall|j: int|
                    0 <= j < i ==> !(self@.labels[j].issue_id == issue_id && self@.labels[j].name@
                        == name@),
            decreases self@.labels.len() - i,
        {
            if self.labels[i].issue_id == issue_id {
                if str_eq(self.labels[i].name.as_str(), name) {
                    return true;
                }
            }
            i += 1;
        }
        false
    }

    /// The issues a typed selector admits, in table order (ascending id):
    /// the recursive filter of the issue table.
    pub fn select_issues_asc(&self, f: &IssueFilter) -> (r: Vec<Issue>)
        requires
            self@.wf(),
        ensures
            r@ == select_spec(self@.issues, self@, *f),
    {
        let ghost v = self@;
        let mut r: Vec<Issue> = Vec::new();
        let mut i: usize = 0;
        proof {
            assert(self@.issues.subrange(0, 0) =~= Seq::<Issue>::empty());
            assert(r@ =~= select_spec(self@.issues.subrange(0, 0), v, *f));
        }
        while i < self.issues.len()
            invariant
                self@.wf(),
                v == self@,
                i <= self@.issues.len(),
                r@ == select_spec(self@.issues.subrange(0, i as int), v, *f),
            decreases self@.issues.len() - i,
        {
            let id = self.issues[i].id;
            proof {
                lemma_sorted_index_unique(self@.issues, i as int, idx_of(self@.issues, id));
            }
            let keep: bool = match f {
                IssueFilter::Children { parent } => match self.issues[i].parent_id {
                    Some(p) => p == *parent,
                    None => false,
                },
                IssueFilter::ArchivedOnly => match self.issues[i].status {
                    Status::Archived => true,
                    _ => false,
                },
                IssueFilter::BlockedOpen => self.is_open_issue(id) && self.has_open_blocker(id),
                IssueFilter::Ready => self.is_ready_issue(id),
            };
            proof {
                assert(keep == filter_pred(v, *f, self@.issues[i as int]));
                assert(self@.issues.subrange(0, i + 1).drop_last() =~= self@.issues.subrange(
                    0,
                    i as int,
                ));
                assert(self@.issues.subrange(0, i + 1).last() == self@.issues[i as int]);
            }
            if keep {
                r.push(self.issues[i].duplicate());
            }
            i += 1;
        }
        proof {
            assert(self@.issues.subrange(0, self@.issues.len() as int) =~= self@.issues);
        }
        r
    }

    /// The direct subissues of a parent, ascending by id.
    pub fn get_subissues(&self, parent_id: u64) -> (r: Vec<Issue>)
        requires
            self@.wf(),
        ensures
            r@ == select_spec(self@.issues, self@, IssueFilter::Children { parent: parent_id }),
    {
        self.select_issues_asc(&IssueFilter::Children { parent: parent_id })
    }

    /// The archived issues, ascending by id.
    pub fn list_archived_issues(&self) -> (r: Vec<Issue>)
        requires
            self@.wf(),
        ensures
            r@ == select_spec(self@.issues, self@, IssueFilter::ArchivedOnly),
    {
        self.select_issues_asc(&IssueFilter::ArchivedOnly)
    }

    /// The open issues with at least one open blocker, ascending by id.
    pub fn list_blocked_issues(&self) -> (r: Vec<Issue>)
        requires
            self@.wf(),
        ensures
            r@ == select_spec(self@.issues, self@, IssueFilter::BlockedOpen),
    {
        self.select_issues_asc(&IssueFilter::BlockedOpen)
    }

    /// The ready set, ascending by id: exactly the open issues whose every
    /// blocker is no longer open (see `lemma_select_spec_props` and the
    /// readiness law for what the result contains).
    pub fn list_ready_issues(&self) -> (r: Vec<Issue>)
        requires
            self@.wf(),
        ensures
            r@ == select_spec(self@.issues, self@, IssueFilter::Ready),
    {
        self.select_issues_asc(&IssueFilter::Ready)
    }

    /// The issues that pass the three optional filters, newest first
    /// (descending id): the recursive filter of the issue table, reversed.
    /// A label filter never duplicates a row; `all` as a status bypasses
    /// the status predicate; an unknown status name matches nothing.
    pub fn list_issues(
        &self,
        status_filter: Option<&str>,
        label_filter: Option<&str>,
        priority_filter: Option<&str>,
    ) -> (r: Vec<Issue>)
        requires
            self@.wf(),
        ensures
            r@ == list_spec(
                self@.issues,
                self@,
                status_filter.deep_view(),
                label_filter.deep_view(),
                priority_filter.deep_view(),
            ),
    {
        let ghost v = self@;
        let ghost sf = status_filter.deep_view();
        let ghost lf = label_filter.deep_view();
        let ghost pf = priority_filter.deep_view();
        let mut r: Vec<Issue> = Vec::new();
        let mut i: usize = self.issues.len();
        proof {
            let n = self@.issues.len() as int;
            assert(self@.issues.subrange(n, n) =~= Seq::<Issue>::empty());
            assert(r@ =~= list_spec(self@.issues.subrange(n, n), v, sf, lf, pf));
        }
        while i > 0
            invariant
                self@.wf(),
                v == self@,
                sf == status_filter.deep_view(),
                lf == label_filter.deep_view(),
                pf == priority_filter.deep_view(),
                i <= self@.issues.len(),
                r@ == list_spec(
                    self@.issues.subrange(i as int, self@.issues.len() as int),
                    v,
                    sf,
                    lf,
                    pf,
                ),
            decreases i,
        {
            i -= 1;
            let id = self.issues[i].id;
            let status_ok: bool = match status_filter {
                None => true,
                Some(f) => str_eq(f, "all") || str_eq(status_name(self.issues[i].status), f),
            };
            let label_ok: bool = match label_filter {
                None => true,
                Some(l) => self.has_label(id, l),
            };
            let priority_ok: bool = match priority_filter {
                None => true,
                Some(p) => str_eq(priority_name(self.issues[i].priority), p),
            };
            proof {
                let n = self@.issues.len() as int;
                assert((status_ok && label_ok && priority_ok) == list_pred(
                    v,
                    self@.issues[i as int],
                    sf,
                    lf,
                    pf,
                ));
                assert(self@.issues.subrange(i as int, n).drop_first() =~= self@.issues.subrange(
                    i + 1,
                    n,
                ));
                assert(self@.issues.subrange(i as int, n)[0] == self@.issues[i as int]);
            }
            if status_ok && label_ok && priority_ok {
                r.push(self.issues[i].duplicate());
            }
        }
        proof {
            assert(self@.issues.subrange(0, self@.issues.len() as int) =~= self@.issues);
        }
        r
    }

    /// The ids that block this issue: direct neighbours only, no
    /// transitive closure, each exactly once.
    pub fn get_blockers(&self, issue_id: u64) -> (r: Vec<u64>)
        requires
            self@.wf(),
        ensures
            forall|k: int| 0 <= k < r@.len() ==> self@.dep_exists(issue_id, #[trigger] r@[k]),
            forall|b: u64| #[trigger] self@.dep_exists(issue_id, b) ==> r@.contains(b),
            forall|k1: int, k2: int| 0 <= k1 < k2 < r@.len() ==> r@[k1] != r@[k2],
    {
        let mut r: Vec<u64> = Vec::new();
        let mut i: usize = 0;
        while i < self.deps.len()
            invariant
                self@.wf(),
                i <= self@.deps.len(),
                forall|k: int|
                    0 <= k < r@.len() ==> exists|j: int|
                        0 <= j < i && self@.deps[j] == (Dep {
                            blocker_id: #[trigger] r@[k],
                            blocked_id: issue_id,
                        }),
                forall|j: int|
                    0 <= j < i && (#[trigger] self@.deps[j]).blocked_id == issue_id ==> r@.contains(
                        self@.deps[j].blocker_id,
                    ),
                forall|k1: int, k2: int| 0 <= k1 < k2 < r@.len() ==> r@[k1] != r@[k2],
            decreases self@.deps.len() - i,
        {
            if self.deps[i].blocked_id == issue_id {
                let b = self.deps[i].blocker_id;
                proof {
                    assert forall|k: int| 0 <= k < r@.len() implies r@[k] != b by {
                        let j = choose|j: int|
                            0 <= j < i && self@.deps[j] == (Dep {
                                blocker_id: r@[k],
                                blocked_id: issue_id,
                            });
                        if r@[k] == b {
                            assert(self@.deps[j] == self@.deps[i as int]);
                        }
                    }
                }
                let ghost r0 = r@;
                r.push(b);
                proof {
                    assert(r@ == r0.push(b));
                    assert(r@[r@.len() - 1] == b);
                    assert forall|x: u64| r0.contains(x) implies r@.contains(x) by {
                        let k = choose|k: int| 0 <= k < r0.len() && r0[k] == x;
                        assert(r@[k] == x);
                    }
                    assert(r@.contains(b));
                }
            }
            i += 1;
        }
        proof {
            assert forall|b: u64| #[trigger] self@.dep_exists(issue_id, b) implies r@.contains(
                b,
            ) by {
                let j = choose|j: int|
                    0 <= j < self@.deps.len() && self@.deps[j] == (Dep {
                        blocker_id: b,
                        blocked_id: issue_id,
                    });
                assert(self@.deps[j].blocked_id == issue_id);
            }
            assert forall|k: int| 0 <= k < r@.len() implies self@.dep_exists(
                issue_id,
                #[trigger] r@[k],
            ) by {
                let j = choose|j: int|
                    0 <= j < self@.deps.len() && self@.deps[j] == (Dep {
                        blocker_id: r@[k],
                        blocked_id: issue_id,
                    });
            }
        }
        r
    }

    /// The ids this issue blocks: direct neighbours only, each exactly
    /// once.
    pub fn get_blocking(&self, issue_id: u64) -> (r: Vec<u64>)
        requires
            self@.wf(),
        ensures
            forall|k: int| 0 <= k < r@.len() ==> self@.dep_exists(#[trigger] r@[k], issue_id),
            forall|b: u64| #[trigger] self@.dep_exists(b, issue_id) ==> r@.contains(b),
            forall|k1: int, k2: int| 0 <= k1 < k2 < r@.len() ==> r@[k1] != r@[k2],
    {
        let mut r: Vec<u64> = Vec::new();
        let mut i: usize = 0;
        while i < self.deps.len()
            invariant
                self@.wf(),
                i <= self@.deps.len(),
                forall|k: int|
                    0 <= k < r@.len() ==> exists|j: int|
                        0 <= j < i && self@.deps[j] == (Dep {
                            blocker_id: issue_id,
                            blocked_id: #[trigger] r@[k],
                        }),
                forall|j: int|
                    0 <= j < i && (#[trigger] self@.deps[j]).blocker_id == issue_id ==> r@.contains(
                        self@.deps[j].blocked_id,
                    ),
                forall|k1: int, k2: int| 0 <= k1 < k2 < r@.len() ==> r@[k1] != r@[k2],
            decreases self@.deps.len() - i,
        {
            if self.deps[i].blocker_id == issue_id {
                let b = self.deps[i].blocked_id;
                proof {
                    assert forall|k: int| 0 <= k < r@.len() implies r@[k] != b by {
                        let j = choose|j: int|
                            0 <= j < i && self@.deps[j] == (Dep {
                                blocker_id: issue_id,
                                blocked_id: r@[k],
                            });
                        if r@[k] == b {
                            assert(self@.deps[j] == self@.deps[i as int]);
                        }
                    }
                }
                let ghost r0 = r@;
                r.push(b);
                proof {
                    assert(r@ == r0.push(b));
                    assert(r@[r@.len() - 1] == b);
                    assert forall|x: u64| r0.contains(x) implies r@.contains(x) by {
                        let k = choose|k: int| 0 <= k < r0.len() && r0[k] == x;
                        assert(r@[k] == x);
                    }
                    assert(r@.contains(b));
                }
            }
            i += 1;
        }
        proof {
            assert forall|b: u64| #[trigger] self@.dep_exists(b, issue_id) implies r@.contains(
                b,
            ) by {
                let j = choose|j: int|
                    0 <= j < self@.deps.len() && self@.deps[j] == (Dep {
                        blocker_id: issue_id,
                        blocked_id: b,
                    });
                assert(self@.deps[j].blocker_id == issue_id);
            }
            assert forall|k: int| 0 <= k < r@.len() implies self@.dep_exists(
                #[trigger] r@[k],
                issue_id,
            ) by {
                let j = choose|j: int|
                    0 <= j < self@.deps.len() && self@.deps[j] == (Dep {
                        blocker_id: issue_id,
                        blocked_id: r@[k],
                    });
            }
        }
        r
    }
}

} // verus!
