//! Domain types of the tracker — issues, comments, dependency edges, labels,
//! time entries, sessions and milestones — together with the small pure
//! functions on their textual forms: priority validation and weighting,
//! status names and icons, and changelog categorisation of labels.

use vstd::prelude::*;
use crate::text::{lower_of, lowercase, str_eq};

verus! {

/// Lifecycle state of an issue: created open, closed with a timestamp,
/// archived only from closed.
#[derive(Clone, Copy, Debug, PartialEq, Eq, Structural)]
pub enum Status {
    Open,
    Closed,
    Archived,
}

/// The fixed four-element priority whitelist.
#[derive(Clone, Copy, Debug, PartialEq, Eq, Structural)]
pub enum Priority {
    Low,
    Medium,
    High,
    Critical,
}

/// A trackable work item. `parent_id` links a subissue to its parent;
/// `closed_at` is set exactly while the status is not open. Timestamps are
/// seconds since the epoch.
#[derive(Debug)]
pub struct Issue {
    pub id: u64,
    pub title: String,
    pub description: Option<String>,
    pub status: Status,
    pub priority: Priority,
    pub parent_id: Option<u64>,
    pub created_at: u64,
    pub updated_at: u64,
    pub closed_at: Option<u64>,
}

/// An append-only note on an issue.
#[derive(Debug)]
pub struct Comment {
    pub id: u64,
    pub issue_id: u64,
    pub content: String,
    pub created_at: u64,
}

/// A tag attached to an issue; the pair is unique.
#[derive(Debug)]
pub struct Label {
    pub issue_id: u64,
    pub name: String,
}

/// A directed dependency edge: `blocker_id` must resolve before
/// `blocked_id` is ready.
#[derive(Clone, Copy, Debug, PartialEq, Eq, Structural)]
pub struct Dep {
    pub blocker_id: u64,
    pub blocked_id: u64,
}

/// One span of tracked time on an issue. An entry with `ended_at == None`
/// is the single active timer; `duration_seconds` is set exactly when the
/// entry is closed.
#[derive(Clone, Copy, Debug, PartialEq, Eq, Structural)]
pub struct TimeEntry {
    pub id: u64,
    pub issue_id: u64,
    pub started_at: u64,
    pub ended_at: Option<u64>,
    pub duration_seconds: Option<u64>,
}

/// A bounded work period with optional handoff notes for continuity.
#[derive(Debug)]
pub struct Session {
    pub id: u64,
    pub started_at: u64,
    pub ended_at: Option<u64>,
    pub active_issue_id: Option<u64>,
    pub handoff_notes: Option<String>,
}

/// Milestone lifecycle: open or closed.
#[derive(Clone, Copy, Debug, PartialEq, Eq, Structural)]
pub enum MilestoneStatus {
    Open,
    Closed,
}

/// A named grouping of issues with aggregate progress.
#[derive(Debug)]
pub struct Milestone {
    pub id: u64,
    pub name: String,
    pub description: Option<String>,
    pub status: MilestoneStatus,
    pub created_at: u64,
    pub closed_at: Option<u64>,
}

/// Membership of an issue in a milestone; the pair is unique.
#[derive(Clone, Copy, Debug, PartialEq, Eq, Structural)]
pub struct MilestoneMember {
    pub milestone_id: u64,
    pub issue_id: u64,
}

fn clone_opt_string(s: &Option<String>) -> (r: Option<String>)
    ensures
        r == *s,
{
    match s {
        Some(v) => Some(v.clone()),
        None => None,
    }
}

impl Issue {
    /// An owned copy, equal to the original.
    pub fn duplicate(&self) -> (r: Issue)
        ensures
            r == *self,
    {
        Issue {
            id: self.id,
            title: self.title.clone(),
            description: clone_opt_string(&self.description),
            status: self.status,
            priority: self.priority,
            parent_id: self.parent_id,
            created_at: self.created_at,
            updated_at: self.updated_at,
            closed_at: self.closed_at,
        }
    }
}

impl Comment {
    /// An owned copy, equal to the original.
    pub fn duplicate(&self) -> (r: Comment)
        ensures
            r == *self,
    {
        Comment {
            id: self.id,
            issue_id: self.issue_id,
            content: self.content.clone(),
            created_at: self.created_at,
        }
    }
}

impl Session {
    /// An owned copy, equal to the original.
    pub fn duplicate(&self) -> (r: Session)
        ensures
            r == *self,
    {
        Session {
            id: self.id,
            started_at: self.started_at,
            ended_at: self.ended_at,
            active_issue_id: self.active_issue_id,
            handoff_notes: clone_opt_string(&self.handoff_notes),
        }
    }
}

impl Milestone {
    /// An owned copy, equal to the original.
    pub fn duplicate(&self) -> (r: Milestone)
        ensures
            r == *self,
    {
        Milestone {
            id: self.id,
            name: self.name.clone(),
            description: clone_opt_string(&self.description),
            status: self.status,
            created_at: self.created_at,
            closed_at: self.closed_at,
        }
    }
}

/// The textual form of a status, as stored and displayed.
pub open spec fn status_name_spec(s: Status) -> Seq<char> {
    match s {
        Status::Open => "open"@,
        Status::Closed => "closed"@,
        Status::Archived => "archived"@,
    }
}

/// The textual form of a status.
pub fn status_name(s: Status) -> (r: &'static str)
    ensures
        r@ == status_name_spec(s),
{
    match s {
        Status::Open => "open",
        Status::Closed => "closed",
        Status::Archived => "archived",
    }
}

/// The textual form of a priority.
pub open spec fn priority_name_spec(p: Priority) -> Seq<char> {
    match p {
        Priority::Low => "low"@,
        Priority::Medium => "medium"@,
        Priority::High => "high"@,
        Priority::Critical => "critical"@,
    }
}

/// The textual form of a priority.
pub fn priority_name(p: Priority) -> (r: &'static str)
    ensures
        r@ == priority_name_spec(p),
{
    match p {
        Priority::Low => "low",
        Priority::Medium => "medium",
        Priority::High => "high",
        Priority::Critical => "critical",
    }
}

/// Whether a string is one of the four priority names, exactly and
/// case-sensitively.
pub open spec fn is_valid_priority(s: Seq<char>) -> bool {
    s == "low"@ || s == "medium"@ || s == "high"@ || s == "critical"@
}

/// Strict whitelist check on a priority string: exact match only, no
/// trimming, case-sensitive.
pub fn validate_priority(priority: &str) -> (r: bool)
    ensures
        r == is_valid_priority(priority@),
{
    str_eq(priority, "low") || str_eq(priority, "medium") || str_eq(priority, "high") || str_eq(
        priority,
        "critical",
    )
}

/// The priority a whitelist string names; meaningful only on the four
/// valid names.
pub open spec fn priority_of_name(s: Seq<char>) -> Priority {
    if s == "critical"@ {
        Priority::Critical
    } else if s == "high"@ {
        Priority::High
    } else if s == "medium"@ {
        Priority::Medium
    } else {
        Priority::Low
    }
}

/// The priority named by a string, when the string is in the whitelist.
pub fn parse_priority(priority: &str) -> (r: Option<Priority>)
    ensures
        match r {
            Some(p) => priority@ == priority_name_spec(p) && p == priority_of_name(priority@),
            None => !is_valid_priority(priority@),
        },
{
    proof {
        reveal_strlit("low");
        reveal_strlit("medium");
        reveal_strlit("high");
        reveal_strlit("critical");
        assert("low"@.len() == 3 && "medium"@.len() == 6 && "high"@.len() == 4 && "critical"@.len()
            == 8);
    }
    if str_eq(priority, "low") {
        Some(Priority::Low)
    } else if str_eq(priority, "medium") {
        Some(Priority::Medium)
    } else if str_eq(priority, "high") {
        Some(Priority::High)
    } else if str_eq(priority, "critical") {
        Some(Priority::Critical)
    } else {
        None
    }
}

/// The scorer's weight of a priority name; unknown names weigh nothing.
pub open spec fn priority_weight_spec(s: Seq<char>) -> int {
    if s == "critical"@ {
        4
    } else if s == "high"@ {
        3
    } else if s == "medium"@ {
        2
    } else if s == "low"@ {
        1
    } else {
        0
    }
}

/// Priority order for ranking (higher is more important).
pub fn priority_weight(priority: &str) -> (r: i32)
    ensures
        r == priority_weight_spec(priority@),
{
    if str_eq(priority, "critical") {
        4
    } else if str_eq(priority, "high") {
        3
    } else if str_eq(priority, "medium") {
        2
    } else if str_eq(priority, "low") {
        1
    } else {
        0
    }
}

/// The weight of a stored priority; agrees with `priority_weight` on the
/// priority's name.
pub fn weight_of(p: Priority) -> (r: u32)
    ensures
        r == priority_weight_spec(priority_name_spec(p)),
{
    proof {
        reveal_strlit("low");
        reveal_strlit("medium");
        reveal_strlit("high");
        reveal_strlit("critical");
        assert("low"@.len() == 3 && "medium"@.len() == 6 && "high"@.len() == 4 && "critical"@.len()
            == 8);
    }
    match p {
        Priority::Low => 1,
        Priority::Medium => 2,
        Priority::High => 3,
        Priority::Critical => 4,
    }
}

/// The tree display marker for a status name.
pub open spec fn status_icon_spec(s: Seq<char>) -> Seq<char> {
    if s == "open"@ {
        " "@
    } else if s == "closed"@ {
        "x"@
    } else {
        "?"@
    }
}

/// The tree display marker: a space for open, `x` for closed, `?` otherwise.
pub fn status_icon(status: &str) -> (r: &'static str)
    ensures
        r@ == status_icon_spec(status@),
{
    if str_eq(status, "open") {
        " "
    } else if str_eq(status, "closed") {
        "x"
    } else {
        "?"
    }
}

/// Whether a lowercased label selects a changelog category.
pub open spec fn label_category(low: Seq<char>) -> Option<Seq<char>> {
    if low == "bug"@ || low == "fix"@ || low == "bugfix"@ {
        Some("Fixed"@)
    } else if low == "feature"@ || low == "enhancement"@ {
        Some("Added"@)
    } else if low == "breaking"@ || low == "breaking-change"@ {
        Some("Changed"@)
    } else if low == "deprecated"@ {
        Some("Deprecated"@)
    } else if low == "removed"@ {
        Some("Removed"@)
    } else if low == "security"@ {
        Some("Security"@)
    } else {
        None
    }
}

/// The changelog category chosen by a list of labels: the first label whose
/// lowercase form is recognised decides; otherwise the default `Changed`.
pub open spec fn category_of(labels: Seq<Seq<char>>) -> Seq<char>
    decreases labels.len(),
{
    if labels.len() == 0 {
        "Changed"@
    } else {
        match label_category(lower_of(labels[0])) {
            Some(c) => c,
            None => category_of(labels.drop_first()),
        }
    }
}

/// Picks the changelog section for a closed issue from its labels: the
/// first recognised label (compared in lowercase) wins, `Changed` is the
/// default.
pub fn determine_changelog_category(labels: &Vec<String>) -> (r: String)
    ensures
        r@ == category_of(labels.deep_view()),
{
    let mut i: usize = 0;
    proof {
        assert(labels.deep_view().subrange(0, labels.deep_view().len() as int)
            =~= labels.deep_view());
    }
    while i < labels.len()
        invariant
            i <= labels@.len(),
            category_of(labels.deep_view()) == category_of(
                labels.deep_view().subrange(i as int, labels.deep_view().len() as int),
            ),
        decreases labels@.len() - i,
    {
        let low = lowercase(labels[i].as_str());
        let ghost rest = labels.deep_view().subrange(i as int, labels.deep_view().len() as int);
        proof {
            assert(rest[0] == labels.deep_view()[i as int]);
            assert(rest.drop_first() =~= labels.deep_view().subrange(
                i as int + 1,
                labels.deep_view().len() as int,
            ));
        }
        if str_eq(low.as_str(), "bug") || str_eq(low.as_str(), "fix") || str_eq(
            low.as_str(),
            "bugfix",
        ) {
            return String::from_str("Fixed");
        } else if str_eq(low.as_str(), "feature") || str_eq(low.as_str(), "enhancement") {
            return String::from_str("Added");
        } else if str_eq(low.as_str(), "breaking") || str_eq(low.as_str(), "breaking-change") {
            return String::from_str("Changed");
        } else if str_eq(low.as_str(), "deprecated") {
            return String::from_str("Deprecated");
        } else if str_eq(low.as_str(), "removed") {
            return String::from_str("Removed");
        } else if str_eq(low.as_str(), "security") {
            return String::from_str("Security");
        }
        i += 1;
    }
    proof {
        assert(labels.deep_view().subrange(
            labels.deep_view().len() as int,
            labels.deep_view().len() as int,
        ) =~= Seq::<Seq<char>>::empty());
    }
    String::from_str("Changed")
}

} // verus!
