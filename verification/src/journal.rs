use vstd::prelude::*;
use vstd::string::StringExecFns;
use crate::clock::format_local_datetime;
use crate::codec::{collect_tasks, encode_tasks, spec_decode, spec_encode, views};
use crate::errors::JournalError;
use crate::render::{render_task_line, spec_line};
use crate::task::Task;

verus! {

/// The line reported instead of entries when the journal is empty.
pub open spec fn spec_empty_message() -> Seq<char> {
    "Task list is empty."@
}

/// A displayed line shows the given position and text, whatever date
/// text the clock and time zone produced.
pub open spec fn line_matches(line: Seq<char>, pos: nat, text: Seq<char>) -> bool {
    exists|d: Seq<char>| line == #[trigger] spec_line(pos, text, d)
}

/// Appends one entry to the persisted journal: the bytes decode, the
/// entry goes at the end, and the whole new journal is re-encoded. On
/// malformed bytes nothing is produced.
pub fn add_task(bytes: &Vec<u8>, task: Task) -> (r: Result<Vec<u8>, JournalError>)
    ensures
        match r {
            Ok(out) => spec_decode(bytes@) is Some && out@ == spec_encode(
                spec_decode(bytes@)->Some_0.push(task@),
            ),
            Err(e) => e == JournalError::InvalidFormat && spec_decode(bytes@) is None,
        },
{
    let mut tasks = match collect_tasks(bytes) {
        Ok(ts) => ts,
        Err(e) => {
            return Err(e);
        },
    };
    let ghost decoded = views(tasks@);
    let ghost tv = task@;
    tasks.push(task);
    proof {
        assert(views(tasks@) =~= decoded.push(tv));
    }
    Ok(encode_tasks(&tasks))
}

/// Removes the entry at a 1-based position from the persisted journal
/// and re-encodes the rest in order. A position of zero or past the end
/// is refused with `InvalidPosition`, and no new bytes are produced, so
/// the caller has nothing to write back.
pub fn complete_task(bytes: &Vec<u8>, task_position: usize) -> (r: Result<Vec<u8>, JournalError>)
    ensures
        match r {
            Ok(out) => {
                &&& spec_decode(bytes@) is Some
                &&& 1 <= task_position <= spec_decode(bytes@)->Some_0.len()
                &&& out@ == spec_encode(
                    spec_decode(bytes@)->Some_0.remove(task_position - 1),
                )
            },
            Err(e) => match e {
                JournalError::InvalidFormat => spec_decode(bytes@) is None,
                JournalError::InvalidPosition => spec_decode(bytes@) is Some && (task_position == 0
                    || task_position > spec_decode(bytes@)->Some_0.len()),
            },
        },
{
    let mut tasks = match collect_tasks(bytes) {
        Ok(ts) => ts,
        Err(e) => {
            return Err(e);
        },
    };
    if task_position == 0 || task_position > tasks.len() {
        return Err(JournalError::InvalidPosition);
    }
    let ghost decoded = views(tasks@);
    tasks.remove(task_position - 1);
    proof {
        assert(views(tasks@) =~= decoded.remove(task_position - 1));
    }
    Ok(encode_tasks(&tasks))
}

/// Renders the persisted journal for display: one line per entry, in
/// order, numbered from one; an empty journal gives the single
/// empty-list message rather than an error.
pub fn list_tasks(bytes: &Vec<u8>) -> (r: Result<Vec<String>, JournalError>)
    ensures
        match r {
            Ok(lines) => spec_decode(bytes@) is Some && ({
                let ts = spec_decode(bytes@)->Some_0;
                if ts.len() == 0 {
                    lines@.len() == 1 && lines@[0]@ == spec_empty_message()
                } else {
                    lines@.len() == ts.len() && forall|i: int|
                        0 <= i < ts.len() ==> #[trigger] line_matches(
                            lines@[i]@,
                            (i + 1) as nat,
                            ts[i].text,
                        )
                }
            }),
            Err(e) => e == JournalError::InvalidFormat && spec_decode(bytes@) is None,
        },
{
    let tasks = match collect_tasks(bytes) {
        Ok(ts) => ts,
        Err(e) => {
            return Err(e);
        },
    };
    let mut lines: Vec<String> = Vec::new();
    if tasks.len() == 0 {
        lines.push(String::from_str("Task list is empty."));
        return Ok(lines);
    }
    let mut i: usize = 0;
    while i < tasks.len()
        invariant
            i <= tasks.len(),
            lines@.len() == i,
            forall|j: int|
                0 <= j < i ==> #[trigger] line_matches(
                    lines@[j]@,
                    (j + 1) as nat,
                    views(tasks@)[j].text,
                ),
        decreases tasks@.len() - i,
    {
        let t = &tasks[i];
        let date = match format_local_datetime(t.created_at) {
            Some(d) => d,
            None => String::new(),
        };
        let line = render_task_line((i as u64) + 1, &t.text, &date);
        lines.push(line);
        proof {
            assert(views(tasks@)[i as int].text == t.text@);
            assert(lines@[i as int]@ == spec_line((i + 1) as nat, views(tasks@)[i as int].text, date@));
            assert(line_matches(lines@[i as int]@, (i + 1) as nat, views(tasks@)[i as int].text));
        }
        i = i + 1;
    }
    Ok(lines)
}

} // verus!
