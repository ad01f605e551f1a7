use vstd::prelude::*;

verus! {

/// Everything that can go wrong while operating on a journal.
///
/// `InvalidFormat`: the persisted bytes are non-empty and do not decode
/// as a task list. `InvalidPosition`: a completion was requested for a
/// 1-based position outside the current list.
#[derive(Clone, Copy, Debug, PartialEq, Eq, Structural)]
pub enum JournalError {
    InvalidFormat,
    InvalidPosition,
}

impl JournalError {
    /// A one-line human-readable description, for the caller's diagnostics.
    pub fn describe(&self) -> (r: &'static str)
        ensures
            *self == JournalError::InvalidFormat ==> r@ == "journal content is not a valid task list"@,
            *self == JournalError::InvalidPosition ==> r@ == "invalid task position"@,
    {
        match self {
            JournalError::InvalidFormat => "journal content is not a valid task list",
            JournalError::InvalidPosition => "invalid task position",
        }
    }
}

} // verus!
