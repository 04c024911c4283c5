//! Typed errors of the store, grouped in the taxonomy the callers map to
//! exit codes: absent ids, rejected arguments, state conflicts and storage
//! faults. Every error renders to a fixed, fully specified message.

use vstd::prelude::*;
use crate::model::{status_name, status_name_spec, Status};
use crate::text::{dec_str, push_dec};

verus! {

/// The four classes of store errors.
#[derive(Clone, Copy, Debug, PartialEq, Eq, Structural)]
pub enum ErrorKind {
    NotFound,
    InvalidArgument,
    Conflict,
    Storage,
}

/// What went wrong in a store operation, with the data its message needs.
#[derive(Debug)]
pub enum StoreError {
    /// No issue has this id.
    IssueNotFound { id: u64 },
    /// No issue has this id, looked up as a parent for a new subissue.
    ParentNotFound { id: u64 },
    /// No milestone has this id.
    MilestoneNotFound { id: u64 },
    /// A priority string outside the fixed whitelist.
    InvalidPriority { given: String },
    /// An update call with no field supplied.
    NothingToUpdate,
    /// A dependency edge from an issue to itself.
    SelfBlocking,
    /// Archiving asked of an issue that is not closed.
    NotClosed { id: u64, status: Status },
    /// Unarchiving asked of an id that is absent or not archived.
    NotArchived { id: u64 },
    /// A timer start while the timer already runs on the same issue.
    TimerAlreadyRunning { id: u64 },
    /// A timer start while the timer runs on another issue, named here.
    TimerRunningOther { active: u64 },
    /// A timer stop while no timer runs.
    TimerNotRunning,
    /// The id space is exhausted; nothing can be inserted.
    StorageFull,
    /// The underlying storage is locked by another writer; retry later.
    StorageBusy,
}

impl StoreError {
    /// The taxonomy class of this error.
    pub open spec fn kind_spec(self) -> ErrorKind {
        match self {
            StoreError::IssueNotFound { .. } => ErrorKind::NotFound,
            StoreError::ParentNotFound { .. } => ErrorKind::NotFound,
            StoreError::MilestoneNotFound { .. } => ErrorKind::NotFound,
            StoreError::InvalidPriority { .. } => ErrorKind::InvalidArgument,
            StoreError::NothingToUpdate => ErrorKind::InvalidArgument,
            StoreError::SelfBlocking => ErrorKind::InvalidArgument,
            StoreError::NotClosed { .. } => ErrorKind::Conflict,
            StoreError::NotArchived { .. } => ErrorKind::NotFound,
            StoreError::TimerAlreadyRunning { .. } => ErrorKind::Conflict,
            StoreError::TimerRunningOther { .. } => ErrorKind::Conflict,
            StoreError::TimerNotRunning => ErrorKind::Conflict,
            StoreError::StorageFull => ErrorKind::Storage,
            StoreError::StorageBusy => ErrorKind::Storage,
        }
    }

    /// The taxonomy class of this error.
    pub fn kind(&self) -> (k: ErrorKind)
        ensures
            k == self.kind_spec(),
    {
        match self {
            StoreError::IssueNotFound { .. } => ErrorKind::NotFound,
            StoreError::ParentNotFound { .. } => ErrorKind::NotFound,
            StoreError::MilestoneNotFound { .. } => ErrorKind::NotFound,
            StoreError::InvalidPriority { .. } => ErrorKind::InvalidArgument,
            StoreError::NothingToUpdate => ErrorKind::InvalidArgument,
            StoreError::SelfBlocking => ErrorKind::InvalidArgument,
            StoreError::NotClosed { .. } => ErrorKind::Conflict,
            StoreError::NotArchived { .. } => ErrorKind::NotFound,
            StoreError::TimerAlreadyRunning { .. } => ErrorKind::Conflict,
            StoreError::TimerRunningOther { .. } => ErrorKind::Conflict,
            StoreError::TimerNotRunning => ErrorKind::Conflict,
            StoreError::StorageFull => ErrorKind::Storage,
            StoreError::StorageBusy => ErrorKind::Storage,
        }
    }

    /// The user-facing message of this error, character for character.
    pub open spec fn message_spec(self) -> Seq<char> {
        match self {
            StoreError::IssueNotFound { id } => "Issue #"@ + dec_str(id as int) + " not found"@,
            StoreError::ParentNotFound { id } => "Parent issue #"@ + dec_str(id as int)
                + " not found"@,
            StoreError::MilestoneNotFound { id } => "Milestone #"@ + dec_str(id as int)
                + " not found"@,
            StoreError::InvalidPriority { given } => "Invalid priority '"@ + given@
                + "'. Must be one of: low, medium, high, critical"@,
            StoreError::NothingToUpdate => "Nothing to update. Use --title, --description, or --priority"@,
            StoreError::SelfBlocking => "An issue cannot block itself"@,
            StoreError::NotClosed { id, status } => "Can only archive closed issues. Issue #"@
                + dec_str(id as int) + " is '"@ + status_name_spec(status) + "'"@,
            StoreError::NotArchived { id } => "Issue #"@ + dec_str(id as int)
                + " not found or not archived"@,
            StoreError::TimerAlreadyRunning { id } => "Timer already running for issue #"@
                + dec_str(id as int),
            StoreError::TimerRunningOther { active } => "Timer already running for issue #"@
                + dec_str(active as int) + ". Stop it first with 'chainlink stop'."@,
            StoreError::TimerNotRunning => "No timer running. Start one with 'chainlink start <id>'."@,
            StoreError::StorageFull => "Storage is full: no id is left to assign"@,
            StoreError::StorageBusy => "Storage is busy: another writer holds the lock"@,
        }
    }

    /// Renders the user-facing message.
    pub fn message(&self) -> (r: String)
        ensures
            r@ == self.message_spec(),
    {
        match self {
            StoreError::IssueNotFound { id } => {
                let mut s = String::from_str("Issue #");
                push_dec(&mut s, *id);
                s.append(" not found");
                proof {
                    assert(s@ =~= self.message_spec());
                }
                s
            },
            StoreError::ParentNotFound { id } => {
                let mut s = String::from_str("Parent issue #");
                push_dec(&mut s, *id);
                s.append(" not found");
                proof {
                    assert(s@ =~= self.message_spec());
                }
                s
            },
            StoreError::MilestoneNotFound { id } => {
                let mut s = String::from_str("Milestone #");
                push_dec(&mut s, *id);
                s.append(" not found");
                proof {
                    assert(s@ =~= self.message_spec());
                }
                s
            },
            StoreError::InvalidPriority { given } => {
                let mut s = String::from_str("Invalid priority '");
                s.append(given.as_str());
                s.append("'. Must be one of: low, medium, high, critical");
                proof {
                    assert(s@ =~= self.message_spec());
                }
                s
            },
            StoreError::NothingToUpdate => String::from_str(
                "Nothing to update. Use --title, --description, or --priority",
            ),
            StoreError::SelfBlocking => String::from_str("An issue cannot block itself"),
            StoreError::NotClosed { id, status } => {
                let mut s = String::from_str("Can only archive closed issues. Issue #");
                push_dec(&mut s, *id);
                s.append(" is '");
                s.append(status_name(*status));
                s.append("'");
                proof {
                    assert(s@ =~= self.message_spec());
                }
                s
            },
            StoreError::NotArchived { id } => {
                let mut s = String::from_str("Issue #");
                push_dec(&mut s, *id);
                s.append(" not found or not archived");
                proof {
                    assert(s@ =~= self.message_spec());
                }
                s
            },
            StoreError::TimerAlreadyRunning { id } => {
                let mut s = String::from_str("Timer already running for issue #");
                push_dec(&mut s, *id);
                proof {
                    assert(s@ =~= self.message_spec());
                }
                s
            },
            StoreError::TimerRunningOther { active } => {
                let mut s = String::from_str("Timer already running for issue #");
                push_dec(&mut s, *active);
                s.append(". Stop it first with 'chainlink stop'.");
                proof {
                    assert(s@ =~= self.message_spec());
                }
                s
            },
            StoreError::TimerNotRunning => String::from_str(
                "No timer running. Start one with 'chainlink start <id>'.",
            ),
            StoreError::StorageFull => String::from_str("Storage is full: no id is left to assign"),
            StoreError::StorageBusy => String::from_str(
                "Storage is busy: another writer holds the lock",
            ),
        }
    }
}

} // verus!
