use vstd::prelude::*;

verus! {

/// The mathematical value of a journal entry: its text as a sequence of
/// characters and its creation time as seconds since the Unix epoch (UTC).
pub struct TaskView {
    pub text: Seq<char>,
    pub created_at: u64,
}

/// One journal entry: a free-text line and the moment it was created,
/// stored as seconds since the Unix epoch (UTC). Entries are immutable:
/// completing a task removes it from the journal rather than changing it.
#[derive(Debug)]
pub struct Task {
    pub text: String,
    pub created_at: u64,
}

impl View for Task {
    type V = TaskView;

    open spec fn view(&self) -> TaskView {
        TaskView { text: self.text@, created_at: self.created_at }
    }
}

impl Task {
    /// Creates an entry carrying the given text, stamped with the
    /// current wall-clock time. The text is kept exactly; the timestamp
    /// comes from the clock, so nothing is promised of its value.
    pub fn new(text: String) -> (r: Task)
        ensures
            r@.text == text@,
    {
        let now = crate::clock::now_seconds();
        let created_at: u64 = if now >= 0 {
            now as u64
        } else {
            0
        };
        Task { text, created_at }
    }
}

} // verus!
