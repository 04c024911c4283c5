//! Session lifecycle: bounded work periods with handoff notes. Creation
//! does not forbid an overlapping open session; the current session is the
//! most recently created one still open — "most recent wins".

use vstd::prelude::*;
use crate::errors::StoreError;
use crate::model::Session;
use crate::store::{Store, StoreV};

verus! {

impl Store {
    /// Opens a new session at `now`. Several sessions may be open at once;
    /// `get_current_session` resolves them to the most recent.
    pub fn start_session(&mut self, now: u64) -> (r: Result<u64, StoreError>)
        requires
            old(self)@.wf(),
        ensures
            final(self)@.wf(),
            match r {
                Ok(id) => {
                    &&& old(self)@.next_session_id < u64::MAX
                    &&& id == old(self)@.next_session_id
                    &&& final(self)@ == (StoreV {
                        sessions: old(self)@.sessions.push(
                            Session {
                                id,
                                started_at: now,
                                ended_at: None,
                                active_issue_id: None,
                                handoff_notes: None,
                            },
                        ),
                        next_session_id: (id + 1) as u64,
                        ..old(self)@
                    })
                },
                Err(e) => {
                    &&& e == StoreError::StorageFull
                    &&& old(self)@.next_session_id == u64::MAX
                    &&& final(self)@ == old(self)@
                },
            },
    {
        if self.next_session_id == u64::MAX {
            return Err(StoreError::StorageFull);
        }
        let id = self.next_session_id;
        self.sessions.push(
            Session {
                id,
                started_at: now,
                ended_at: None,
                active_issue_id: None,
                handoff_notes: None,
            },
        );
        self.next_session_id = id + 1;
        Ok(id)
    }

    /// The position of the session with this id, if any.
    fn find_session_index(&self, id: u64) -> (r: Option<usize>)
        ensures
            match r {
                Some(i) => i < self@.sessions.len() && self@.sessions[i as int].id == id,
                None => forall|j: int| 0 <= j < self@.sessions.len() ==> self@.sessions[j].id != id,
            },
    {
        let mut i: usize = 0;
        while i < self.sessions.len()
            invariant
                i <= self@.sessions.len(),
                forall|j: int| 0 <= j < i ==> self@.sessions[j].id != id,
            decreases self@.sessions.len() - i,
        {
            if self.sessions[i].id == id {
                return Some(i);
            }
            i += 1;
        }
        None
    }

    /// Ends a session at `now` and stores the handoff notes as given,
    /// replacing whatever was there; `false` when the id is absent.
    pub fn end_session(&mut self, id: u64, notes: Option<String>, now: u64) -> (r: bool)
        requires
            old(self)@.wf(),
        ensures
            final(self)@.wf(),
            r == (exists|j: int|
                0 <= j < old(self)@.sessions.len() && old(self)@.sessions[j].id == id),
            !r ==> final(self)@ == old(self)@,
            r ==> exists|j: int|
                0 <= j < old(self)@.sessions.len() && old(self)@.sessions[j].id == id && final(self)@ == (StoreV {
                    sessions: old(self)@.sessions.update(
                        j,
                        Session {
                            ended_at: Some(now),
                            handoff_notes: notes,
                            ..old(self)@.sessions[j]
                        },
                    ),
                    ..old(self)@
                }),
    {
        match self.find_session_index(id) {
            Some(i) => {
                let ghost pre = self@;
                let mut ss = self.sessions[i].duplicate();
                ss.ended_at = Some(now);
                ss.handoff_notes = notes;
                let ghost x = ss;
                self.sessions.set(i, ss);
                proof {
                    let t = self@.sessions;
                    assert(forall|k: int| 0 <= k < t.len() ==> #[trigger] t[k].id == pre.sessions[k].id);
                    assert forall|k: int| 0 <= k < t.len() implies match (
                    #[trigger] t[k]).active_issue_id {
                        Some(a) => crate::store::has_issue_in(self@.issues, a),
                        None => true,
                    } by {
                        if k != i {
                            assert(t[k] == pre.sessions[k]);
                        } else {
                            assert(t[k].active_issue_id == pre.sessions[k].active_issue_id);
                        }
                    }
                    assert(pre.sessions[i as int].id == id);
                    assert(self@ == (StoreV { sessions: t, ..pre }));
                    assert(self@.sessions_wf());
                    assert(self@.issues_wf() && self@.labels_wf() && self@.comments_wf()
                        && self@.deps_wf() && self@.entries_wf() && self@.milestones_wf()
                        && self@.members_wf());
                }
                true
            },
            None => false,
        }
    }

    /// The current session: the most recently created one still open, if
    /// any.
    pub fn get_current_session(&self) -> (r: Option<Session>)
        requires
            self@.wf(),
        ensures
            match r {
                Some(ss) => (exists|j: int|
                    0 <= j < self@.sessions.len() && self@.sessions[j] == ss) && (ss.ended_at
                    is None) && (forall|j: int|
                    0 <= j < self@.sessions.len() && ((#[trigger] self@.sessions[j].ended_at)
                        is None) ==> self@.sessions[j].id <= ss.id),
                None => forall|j: int|
                    0 <= j < self@.sessions.len() ==> !((#[trigger] self@.sessions[j].ended_at)
                        is None),
            },
    {
        let mut i: usize = self.sessions.len();
        while i > 0
            invariant
                self@.wf(),
                i <= self@.sessions.len(),
                forall|j: int|
                    i <= j < self@.sessions.len() ==> !((#[trigger] self@.sessions[j].ended_at)
                        is None),
            decreases i,
        {
            i -= 1;
            let open_session = match self.sessions[i].ended_at {
                Some(_) => false,
                None => true,
            };
            if open_session {
                proof {
                    assert forall|j: int|
                        0 <= j < self@.sessions.len() && ((#[trigger] self@.sessions[j].ended_at)
                            is None) implies self@.sessions[j].id <= self@.sessions[i as int].id by {
                        if j > i {
                            assert(false);
                        }
                        if j < i {
                            assert(self@.sessions[j].id < self@.sessions[i as int].id);
                        }
                    }
                }
                return Some(self.sessions[i].duplicate());
            }
        }
        None
    }

    /// The most recently ended session, if any: where the latest handoff
    /// notes live.
    pub fn get_last_session(&self) -> (r: Option<Session>)
        requires
            self@.wf(),
        ensures
            match r {
                Some(ss) => (exists|j: int|
                    0 <= j < self@.sessions.len() && self@.sessions[j] == ss) && (ss.ended_at
                    is Some) && (forall|j: int|
                    0 <= j < self@.sessions.len() && ((#[trigger] self@.sessions[j].ended_at)
                        is Some) ==> self@.sessions[j].id <= ss.id),
                None => forall|j: int|
                    0 <= j < self@.sessions.len() ==> !((#[trigger] self@.sessions[j].ended_at)
                        is Some),
            },
    {
        let mut i: usize = self.sessions.len();
        while i > 0
            invariant
                self@.wf(),
                i <= self@.sessions.len(),
                forall|j: int|
                    i <= j < self@.sessions.len() ==> !((#[trigger] self@.sessions[j].ended_at)
                        is Some),
            decreases i,
        {
            i -= 1;
            let ended = match self.sessions[i].ended_at {
                Some(_) => true,
                None => false,
            };
            if ended {
                proof {
                    assert forall|j: int|
                        0 <= j < self@.sessions.len() && ((#[trigger] self@.sessions[j].ended_at)
                            is Some) implies self@.sessions[j].id <= self@.sessions[i as int].id by {
                        if j > i {
                            assert(false);
                        }
                        if j < i {
                            assert(self@.sessions[j].id < self@.sessions[i as int].id);
                        }
                    }
                }
                return Some(self.sessions[i].duplicate());
            }
        }
        None
    }

    /// Records which issue a session is working on. The issue must exist;
    /// an absent session is reported as `false`.
    pub fn set_session_issue(&mut self, session_id: u64, issue_id: u64) -> (r: Result<
        bool,
        StoreError,
    >)
        requires
            old(self)@.wf(),
        ensures
            final(self)@.wf(),
            match r {
                Ok(true) => {
                    &&& old(self)@.has_issue(issue_id)
                    &&& exists|j: int|
                        0 <= j < old(self)@.sessions.len() && old(self)@.sessions[j].id
                            == session_id && final(self)@ == (StoreV {
                            sessions: old(self)@.sessions.update(
                                j,
                                Session {
                                    active_issue_id: Some(issue_id),
                                    ..old(self)@.sessions[j]
                                },
                            ),
                            ..old(self)@
                        })
                },
                Ok(false) => {
                    &&& old(self)@.has_issue(issue_id)
                    &&& (forall|j: int|
                        0 <= j < old(self)@.sessions.len() ==> old(self)@.sessions[j].id
                            != session_id)
                    &&& final(self)@ == old(self)@
                },
                Err(e) => {
                    &&& e == (StoreError::IssueNotFound { id: issue_id })
                    &&& !old(self)@.has_issue(issue_id)
                    &&& final(self)@ == old(self)@
                },
            },
    {
        if self.find_issue_index(issue_id).is_none() {
            return Err(StoreError::IssueNotFound { id: issue_id });
        }
        match self.find_session_index(session_id) {
            Some(i) => {
                let ghost pre = self@;
                let mut ss = self.sessions[i].duplicate();
                ss.active_issue_id = Some(issue_id);
                let ghost x = ss;
                self.sessions.set(i, ss);
                proof {
                    let t = self@.sessions;
                    assert(forall|k: int| 0 <= k < t.len() ==> #[trigger] t[k].id == pre.sessions[k].id);
                    assert forall|k: int| 0 <= k < t.len() implies match (
                    #[trigger] t[k]).active_issue_id {
                        Some(a) => crate::store::has_issue_in(self@.issues, a),
                        None => true,
                    } by {
                        if k != i {
                            assert(t[k] == pre.sessions[k]);
                        }
                    }
                    assert(pre.sessions[i as int].id == session_id);
                    assert(self@ == (StoreV { sessions: t, ..pre }));
                    assert(self@.sessions_wf());
                    assert(self@.issues_wf() && self@.labels_wf() && self@.comments_wf()
                        && self@.deps_wf() && self@.entries_wf() && self@.milestones_wf()
                        && self@.members_wf());
                }
                Ok(true)
            },
            None => Ok(false),
        }
    }
}

} // verus!
