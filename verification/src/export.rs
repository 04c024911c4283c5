//! The export records: one flat, self-contained row per issue with its
//! labels and comments, plus the envelope that carries them all. The
//! caller renders these to JSON or Markdown; timestamps leave the store as
//! RFC 3339 text.

use vstd::prelude::*;
use crate::model::{priority_name, priority_name_spec, status_name, status_name_spec, Issue};
use crate::relations::{comments_spec, sorted_label_listing};
use crate::queries::list_spec;
use crate::store::{Store, StoreV};

verus! {

/// The RFC 3339 rendering of an epoch-seconds timestamp, as chrono
/// formats it: a fixed function of the timestamp alone.
pub uninterp spec fn rfc3339_of(secs: int) -> Seq<char>;

/// Relies on chrono's DateTime::from_timestamp and to_rfc3339: the text
/// depends on the timestamp alone, on every machine alike. A timestamp
/// outside chrono's range renders as the empty string.
#[verifier::external_body]
pub fn format_rfc3339(secs: u64) -> (r: String)
    ensures
        r@ == rfc3339_of(secs as int),
{
    match chrono::DateTime::<chrono::Utc>::from_timestamp(secs as i64, 0) {
        Some(dt) => dt.to_rfc3339(),
        None => String::new(),
    }
}

/// One exported comment: its text and its creation time as RFC 3339 text.
#[derive(Debug)]
pub struct ExportedComment {
    pub content: String,
    pub created_at: String,
}

/// One exported issue: every stored field in textual form, with its
/// labels and comments inlined.
#[derive(Debug)]
pub struct ExportedIssue {
    pub id: u64,
    pub title: String,
    pub description: Option<String>,
    pub status: String,
    pub priority: String,
    pub parent_id: Option<u64>,
    pub labels: Vec<String>,
    pub comments: Vec<ExportedComment>,
    pub created_at: String,
    pub updated_at: String,
    pub closed_at: Option<String>,
}

/// A whole export: a format version, the export time, and every issue.
#[derive(Debug)]
pub struct ExportData {
    pub version: u32,
    pub exported_at: String,
    pub issues: Vec<ExportedIssue>,
}

/// What it means for an export record to render one stored issue.
pub open spec fn is_export_of(v: StoreV, e: ExportedIssue, iss: Issue) -> bool {
    &&& e.id == iss.id
    &&& e.title == iss.title
    &&& e.description == iss.description
    &&& e.status@ == status_name_spec(iss.status)
    &&& e.priority@ == priority_name_spec(iss.priority)
    &&& e.parent_id == iss.parent_id
    &&& sorted_label_listing(e.labels.deep_view(), v.labels, iss.id)
    &&& e.comments@.len() == comments_spec(v.comments, iss.id).len()
    &&& forall|k: int|
        0 <= k < e.comments@.len() ==> (#[trigger] e.comments@[k]).content == comments_spec(
            v.comments,
            iss.id,
        )[k].content && e.comments@[k].created_at@ == rfc3339_of(
            comments_spec(v.comments, iss.id)[k].created_at as int,
        )
    &&& e.created_at@ == rfc3339_of(iss.created_at as int)
    &&& e.updated_at@ == rfc3339_of(iss.updated_at as int)
    &&& match (e.closed_at, iss.closed_at) {
        (Some(t), Some(c)) => t@ == rfc3339_of(c as int),
        (None, None) => true,
        _ => false,
    }
}

impl Store {
    /// Renders one issue to its export record, inlining its labels and
    /// comments.
    pub fn export_issue(&self, iss: &Issue) -> (r: ExportedIssue)
        requires
            self@.wf(),
        ensures
            is_export_of(self@, r, *iss),
    {
        let labels = self.get_labels(iss.id);
        let raw_comments = self.get_comments(iss.id);
        let ghost cs = comments_spec(self@.comments, iss.id);
        let mut comments: Vec<ExportedComment> = Vec::new();
        let mut i: usize = 0;
        while i < raw_comments.len()
            invariant
                raw_comments@ == cs,
                i <= cs.len(),
                comments@.len() == i,
                forall|k: int|
                    0 <= k < i ==> (#[trigger] comments@[k]).content == cs[k].content
                        && comments@[k].created_at@ == rfc3339_of(cs[k].created_at as int),
            decreases cs.len() - i,
        {
            comments.push(
                ExportedComment {
                    content: raw_comments[i].content.clone(),
                    created_at: format_rfc3339(raw_comments[i].created_at),
                },
            );
            i += 1;
        }
        ExportedIssue {
            id: iss.id,
            title: iss.title.clone(),
            description: match &iss.description {
                Some(d) => Some(d.clone()),
                None => None,
            },
            status: String::from_str(status_name(iss.status)),
            priority: String::from_str(priority_name(iss.priority)),
            parent_id: iss.parent_id,
            labels,
            comments,
            created_at: format_rfc3339(iss.created_at),
            updated_at: format_rfc3339(iss.updated_at),
            closed_at: match iss.closed_at {
                Some(c) => Some(format_rfc3339(c)),
                None => None,
            },
        }
    }

    /// Renders the whole store for export: format version 1, the export
    /// time, and every issue whatever its status, newest first.
    pub fn export_data(&self, now: u64) -> (r: ExportData)
        requires
            self@.wf(),
        ensures
            r.version == 1,
            r.exported_at@ == rfc3339_of(now as int),
            r.issues@.len() == list_spec(self@.issues, self@, Some("all"@), None, None).len(),
            forall|k: int|
                0 <= k < r.issues@.len() ==> is_export_of(
                    self@,
                    #[trigger] r.issues@[k],
                    list_spec(self@.issues, self@, Some("all"@), None, None)[k],
                ),
    {
        let all = self.list_issues(Some("all"), None, None);
        let ghost li = list_spec(self@.issues, self@, Some("all"@), None, None);
        let mut issues: Vec<ExportedIssue> = Vec::new();
        let mut i: usize = 0;
        while i < all.len()
            invariant
                self@.wf(),
                all@ == li,
                i <= li.len(),
                issues@.len() == i,
                forall|k: int|
                    0 <= k < i ==> is_export_of(self@, #[trigger] issues@[k], li[k]),
            decreases li.len() - i,
        {
            issues.push(self.export_issue(&all[i]));
            i += 1;
        }
        ExportData { version: 1, exported_at: format_rfc3339(now), issues }
    }
}

} // verus!
