//! The single global timer: a two-state machine, idle or running on one
//! issue. At most one time entry is open store-wide; starting names the
//! issue that already holds the timer, stopping closes the entry and
//! aggregates the issue's lifetime total.

use vstd::prelude::*;
use crate::errors::StoreError;
use crate::model::TimeEntry;
use crate::store::{Store, StoreV};

verus! {

/// The elapsed seconds between a start and a stop; a clock that moved
/// backwards counts as zero rather than wrapping.
pub open spec fn elapsed_spec(started: u64, now: u64) -> u64 {
    if now >= started {
        (now - started) as u64
    } else {
        0
    }
}

/// The lifetime total of closed durations recorded for one issue.
pub open spec fn total_secs(s: Seq<TimeEntry>, issue_id: u64) -> int
    decreases s.len(),
{
    if s.len() == 0 {
        0
    } else {
        total_secs(s.drop_last(), issue_id) + (if s.last().issue_id == issue_id {
            match s.last().duration_seconds {
                Some(d) => d as int,
                None => 0,
            }
        } else {
            0
        })
    }
}

/// The total, clamped to what a `u64` can carry.
pub open spec fn total_secs_sat(s: Seq<TimeEntry>, issue_id: u64) -> int {
    if total_secs(s, issue_id) <= u64::MAX {
        total_secs(s, issue_id)
    } else {
        u64::MAX as int
    }
}

impl StoreV {
    /// Whether some time entry is open: the timer is running.
    pub open spec fn has_active_timer(self) -> bool {
        exists|i: int| 0 <= i < self.entries.len() && (self.entries[i].ended_at is None)
    }

    /// The index of the open entry; unique under the invariant.
    pub open spec fn active_idx(self) -> int {
        choose|i: int| 0 <= i < self.entries.len() && (self.entries[i].ended_at is None)
    }

    /// The open entry.
    pub open spec fn active_entry(self) -> TimeEntry {
        self.entries[self.active_idx()]
    }
}

impl Store {
    /// The running timer, as the issue it runs on and its start time.
    pub fn get_active_timer(&self) -> (r: Option<(u64, u64)>)
        requires
            self@.wf(),
        ensures
            match r {
                Some(t) => self@.has_active_timer() && t.0 == self@.active_entry().issue_id && t.1
                    == self@.active_entry().started_at,
                None => !self@.has_active_timer(),
            },
    {
        let mut i: usize = 0;
        while i < self.entries.len()
            invariant
                self@.wf(),
                i <= self@.entries.len(),
                forall|j: int| 0 <= j < i ==> !((self@.entries[j].ended_at) is None),
            decreases self@.entries.len() - i,
        {
            let open_entry = match self.entries[i].ended_at {
                Some(_) => false,
                None => true,
            };
            if open_entry {
                proof {
                    let a = self@.active_idx();
                    assert(0 <= a < self@.entries.len() && (self@.entries[a].ended_at is None));
                    if a != i {
                        assert(false);
                    }
                }
                return Some((self.entries[i].issue_id, self.entries[i].started_at));
            }
            i += 1;
        }
        proof {
            if self@.has_active_timer() {
                let a = choose|j: int|
                    0 <= j < self@.entries.len() && (self@.entries[j].ended_at is None);
                assert(false);
            }
        }
        None
    }

    /// Starts the timer on an issue. Valid only while idle: a running
    /// timer fails with a message naming its issue — one message when it
    /// already runs on this very issue, another naming the other issue.
    pub fn start_timer(&mut self, issue_id: u64, now: u64) -> (r: Result<u64, StoreError>)
        requires
            old(self)@.wf(),
        ensures
            final(self)@.wf(),
            match r {
                Ok(id) => {
                    &&& old(self)@.has_issue(issue_id)
                    &&& !old(self)@.has_active_timer()
                    &&& old(self)@.next_entry_id < u64::MAX
                    &&& id == old(self)@.next_entry_id
                    &&& final(self)@ == (StoreV {
                        entries: old(self)@.entries.push(
                            TimeEntry {
                                id,
                                issue_id,
                                started_at: now,
                                ended_at: None,
                                duration_seconds: None,
                            },
                        ),
                        next_entry_id: (id + 1) as u64,
                        ..old(self)@
                    })
                    &&& final(self)@.has_active_timer()
                },
                Err(e) => {
                    &&& final(self)@ == old(self)@
                    &&& (match e {
                        StoreError::IssueNotFound { id: n } => n == issue_id && !old(
                            self,
                        )@.has_issue(issue_id),
                        StoreError::TimerAlreadyRunning { id: n } => old(self)@.has_issue(issue_id)
                            && old(self)@.has_active_timer() && n == issue_id && old(
                            self,
                        )@.active_entry().issue_id == issue_id,
                        StoreError::TimerRunningOther { active } => old(self)@.has_issue(issue_id)
                            && old(self)@.has_active_timer() && active == old(
                            self,
                        )@.active_entry().issue_id && active != issue_id,
                        StoreError::StorageFull => old(self)@.has_issue(issue_id) && !old(
                            self,
                        )@.has_active_timer() && old(self)@.next_entry_id == u64::MAX,
                        _ => false,
                    })
                },
            },
            old(self)@.has_issue(issue_id) && old(self)@.has_active_timer() && old(
                self,
            )@.active_entry().issue_id != issue_id ==> r == Err::<u64, StoreError>(
                StoreError::TimerRunningOther { active: old(self)@.active_entry().issue_id },
            ) && final(self)@ == old(self)@,
            old(self)@.has_issue(issue_id) && old(self)@.has_active_timer() && old(
                self,
            )@.active_entry().issue_id == issue_id ==> r == Err::<u64, StoreError>(
                StoreError::TimerAlreadyRunning { id: issue_id },
            ) && final(self)@ == old(self)@,
            old(self)@.has_issue(issue_id) && !old(self)@.has_active_timer() && old(
                self,
            )@.next_entry_id < u64::MAX ==> r is Ok,
    {
        if self.find_issue_index(issue_id).is_none() {
            return Err(StoreError::IssueNotFound { id: issue_id });
        }
        match self.get_active_timer() {
            Some((active_id, _)) => {
                if active_id == issue_id {
                    return Err(StoreError::TimerAlreadyRunning { id: issue_id });
                } else {
                    return Err(StoreError::TimerRunningOther { active: active_id });
                }
            },
            None => {},
        }
        if self.next_entry_id == u64::MAX {
            return Err(StoreError::StorageFull);
        }
        let id = self.next_entry_id;
        let ghost pre = self@;
        self.entries.push(
            TimeEntry { id, issue_id, started_at: now, ended_at: None, duration_seconds: None },
        );
        self.next_entry_id = id + 1;
        proof {
            let t = self@.entries;
            assert forall|i: int, j: int| 0 <= i < j < t.len() implies !((t[i].ended_at is None)
                && (t[j].ended_at is None)) by {
                if j == t.len() - 1 {
                    if t[i].ended_at is None {
                        assert(pre.has_active_timer());
                    }
                }
            }
            assert(self@.has_active_timer()) by {
                assert(t[t.len() - 1].ended_at is None);
            }
        }
        Ok(id)
    }

    /// Stops the running timer: closes the entry with the elapsed seconds
    /// and returns the issue, the elapsed time and the issue's new
    /// lifetime total. Fails only while idle.
    pub fn stop_timer(&mut self, now: u64) -> (r: Result<(u64, u64, u64), StoreError>)
        requires
            old(self)@.wf(),
        ensures
            final(self)@.wf(),
            match r {
                Ok(t) => {
                    &&& old(self)@.has_active_timer()
                    &&& t.0 == old(self)@.active_entry().issue_id
                    &&& t.1 == elapsed_spec(old(self)@.active_entry().started_at, now)
                    &&& final(self)@ == (StoreV {
                        entries: old(self)@.entries.update(
                            old(self)@.active_idx(),
                            TimeEntry {
                                ended_at: Some(now),
                                duration_seconds: Some(t.1),
                                ..old(self)@.active_entry()
                            },
                        ),
                        ..old(self)@
                    })
                    &&& t.2 == total_secs_sat(final(self)@.entries, t.0)
                    &&& !final(self)@.has_active_timer()
                },
                Err(e) => {
                    &&& e == StoreError::TimerNotRunning
                    &&& !old(self)@.has_active_timer()
                    &&& final(self)@ == old(self)@
                },
            },
    {
        let ghost pre = self@;
        let mut found: Option<usize> = None;
        let mut i: usize = 0;
        while i < self.entries.len()
            invariant
                self@.wf(),
                self@ == pre,
                pre == old(self)@,
                i <= self@.entries.len(),
                match found {
                    Some(fi) => fi < i && (self@.entries[fi as int].ended_at is None),
                    None => forall|j: int| 0 <= j < i ==> !((self@.entries[j].ended_at) is None),
                },
            decreases self@.entries.len() - i,
        {
            let open_entry = match self.entries[i].ended_at {
                Some(_) => false,
                None => true,
            };
            if open_entry && found.is_none() {
                found = Some(i);
            }
            i += 1;
        }
        match found {
            Some(fi) => {
                proof {
                    let a = pre.active_idx();
                    assert(pre.entries[fi as int].ended_at is None);
                    assert(pre.has_active_timer());
                    assert(0 <= a < pre.entries.len() && (pre.entries[a].ended_at is None));
                    if a != fi {
                        assert(false);
                    }
                }
                let entry = self.entries[fi];
                let elapsed: u64 = if now >= entry.started_at {
                    now - entry.started_at
                } else {
                    0
                };
                let closed = TimeEntry {
                    id: entry.id,
                    issue_id: entry.issue_id,
                    started_at: entry.started_at,
                    ended_at: Some(now),
                    duration_seconds: Some(elapsed),
                };
                self.entries.set(fi, closed);
                proof {
                    let t = self@.entries;
                    assert forall|i1: int, j1: int| 0 <= i1 < j1 < t.len() implies !((t[i1].ended_at
                        is None) && (t[j1].ended_at is None)) by {
                        if i1 != fi && j1 != fi {
                            assert(t[i1] == pre.entries[i1] && t[j1] == pre.entries[j1]);
                        }
                    }
                    assert(!self@.has_active_timer()) by {
                        if self@.has_active_timer() {
                            let j = choose|j: int|
                                0 <= j < t.len() && (t[j].ended_at is None);
                            assert(pre.entries[j].ended_at is None);
                            assert(j == pre.active_idx());
                        }
                    }
                }
                let total = self.get_total_time(entry.issue_id);
                Ok((entry.issue_id, elapsed, total))
            },
            None => {
                proof {
                    if pre.has_active_timer() {
                        let a = choose|j: int|
                            0 <= j < pre.entries.len() && (pre.entries[j].ended_at is None);
                        assert(false);
                    }
                }
                Err(StoreError::TimerNotRunning)
            },
        }
    }

    /// The timer as `status` reports it: the issue and the elapsed seconds
    /// so far, or nothing while idle.
    pub fn timer_status(&self, now: u64) -> (r: Option<(u64, u64)>)
        requires
            self@.wf(),
        ensures
            match r {
                Some(t) => self@.has_active_timer() && t.0 == self@.active_entry().issue_id && t.1
                    == elapsed_spec(self@.active_entry().started_at, now),
                None => !self@.has_active_timer(),
            },
    {
        match self.get_active_timer() {
            Some((issue_id, started_at)) => {
                let elapsed: u64 = if now >= started_at {
                    now - started_at
                } else {
                    0
                };
                Some((issue_id, elapsed))
            },
            None => None,
        }
    }

    /// The lifetime total of recorded seconds on one issue, summed over
    /// closed entries and clamped at what a `u64` can carry.
    pub fn get_total_time(&self, issue_id: u64) -> (r: u64)
        ensures
            r == total_secs_sat(self@.entries, issue_id),
    {
        let ghost s = self@.entries;
        let mut acc: u64 = 0;
        let mut i: usize = 0;
        proof {
            assert(s.subrange(0, 0) =~= Seq::<TimeEntry>::empty());
        }
        while i < self.entries.len()
            invariant
                s == self@.entries,
                i <= s.len(),
                acc == total_secs_sat(s.subrange(0, i as int), issue_id),
                total_secs(s.subrange(0, i as int), issue_id) >= 0,
            decreases s.len() - i,
        {
            proof {
                assert(s.subrange(0, i + 1).drop_last() =~= s.subrange(0, i as int));
                assert(s.subrange(0, i + 1).last() == s[i as int]);
            }
            if self.entries[i].issue_id == issue_id {
                match self.entries[i].duration_seconds {
                    Some(d) => {
                        if acc <= u64::MAX - d {
                            acc = acc + d;
                        } else {
                            acc = u64::MAX;
                        }
                    },
                    None => {},
                }
            }
            i += 1;
        }
        proof {
            assert(s.subrange(0, s.len() as int) =~= s);
        }
        acc
    }

    /// Splits a duration in seconds into whole hours, minutes within the
    /// hour, and seconds within the minute.
    pub fn split_duration(total: u64) -> (r: (u64, u64, u64))
        ensures
            r.0 == total / 3600,
            r.1 == (total % 3600) / 60,
            r.2 == total % 60,
    {
        (total / 3600, (total % 3600) / 60, total % 60)
    }
}

} // verus!
