use rusty_journal::{
    add_task, collect_tasks, complete_task, encode_tasks, list_tasks, JournalError, Task,
};

fn task(text: &str, secs: u64) -> Task {
    Task { text: String::from(text), created_at: secs }
}

#[test]
fn round_trip_preserves_text_and_timestamp() {
    let tasks = vec![
        task("buy milk", 1700000000),
        task("h\u{e9}llo w\u{f6}rld \u{1f600}", 0),
        task("", 42),
        task("exactly fifty characters of text should not pad!!!", u64::MAX),
    ];
    let bytes = encode_tasks(&tasks);
    let back = collect_tasks(&bytes).expect("round trip must decode");
    assert_eq!(back.len(), tasks.len());
    for i in 0..tasks.len() {
        assert_eq!(back[i].text, tasks[i].text);
        assert_eq!(back[i].created_at, tasks[i].created_at);
    }
}

#[test]
fn empty_bytes_decode_to_empty_journal() {
    let bytes: Vec<u8> = Vec::new();
    let back = collect_tasks(&bytes).expect("empty content is a valid journal");
    assert_eq!(back.len(), 0);
}

#[test]
fn encoding_is_length_prefixed_little_endian() {
    let tasks = vec![task("ab", 5)];
    let bytes = encode_tasks(&tasks);
    let expected = vec![
        2, 0, 0, 0, 0, 0, 0, 0, // text byte length
        97, 98, // "ab"
        5, 0, 0, 0, 0, 0, 0, 0, // created_at
    ];
    assert_eq!(bytes, expected);
    let back = collect_tasks(&expected).unwrap();
    assert_eq!(back.len(), 1);
    assert_eq!(back[0].text, "ab");
    assert_eq!(back[0].created_at, 5);
}

#[test]
fn truncated_content_is_refused() {
    let bytes = vec![1u8, 2, 3];
    assert_eq!(collect_tasks(&bytes).unwrap_err(), JournalError::InvalidFormat);
}

#[test]
fn oversized_length_prefix_is_refused() {
    let bytes = vec![255u8, 255, 255, 255, 255, 255, 255, 255, 0, 0, 0, 0, 0, 0, 0, 0];
    assert_eq!(collect_tasks(&bytes).unwrap_err(), JournalError::InvalidFormat);
}

#[test]
fn invalid_utf8_text_is_refused() {
    let bytes = vec![
        1, 0, 0, 0, 0, 0, 0, 0, // one text byte
        0xff, // not valid UTF-8
        0, 0, 0, 0, 0, 0, 0, 0, // created_at
    ];
    assert_eq!(collect_tasks(&bytes).unwrap_err(), JournalError::InvalidFormat);
}

#[test]
fn add_appends_at_the_end() {
    let bytes = encode_tasks(&vec![task("first", 1)]);
    let out = add_task(&bytes, task("second", 2)).expect("well-formed journal accepts add");
    let back = collect_tasks(&out).unwrap();
    assert_eq!(back.len(), 2);
    assert_eq!(back[0].text, "first");
    assert_eq!(back[0].created_at, 1);
    assert_eq!(back[1].text, "second");
    assert_eq!(back[1].created_at, 2);
}

#[test]
fn add_on_malformed_journal_fails() {
    let bytes = vec![9u8];
    assert_eq!(
        add_task(&bytes, task("x", 0)).unwrap_err(),
        JournalError::InvalidFormat
    );
}

#[test]
fn new_task_keeps_text_and_current_second() {
    let before = chrono::Utc::now().timestamp();
    let t = Task::new(String::from("buy milk"));
    let after = chrono::Utc::now().timestamp();
    assert_eq!(t.text, "buy milk");
    assert!(before >= 0 && after >= 0);
    assert!(t.created_at >= before as u64);
    assert!(t.created_at <= after as u64);
}

#[test]
fn complete_removes_exactly_one_and_shifts() {
    let bytes = encode_tasks(&vec![task("A", 1), task("B", 2), task("C", 3)]);
    let out = complete_task(&bytes, 2).expect("position 2 of 3 is valid");
    let back = collect_tasks(&out).unwrap();
    assert_eq!(back.len(), 2);
    assert_eq!(back[0].text, "A");
    assert_eq!(back[1].text, "C");
    let lines = list_tasks(&out).unwrap();
    assert_eq!(lines.len(), 2);
    assert!(lines[0].starts_with("1. A"));
    assert!(lines[1].starts_with("2. C"));
}

#[test]
fn complete_bounds_are_checked_and_nothing_changes() {
    let tasks = vec![task("A", 1), task("B", 2)];
    let bytes = encode_tasks(&tasks);
    assert_eq!(complete_task(&bytes, 0).unwrap_err(), JournalError::InvalidPosition);
    assert_eq!(complete_task(&bytes, 3).unwrap_err(), JournalError::InvalidPosition);
    let back = collect_tasks(&bytes).unwrap();
    assert_eq!(back.len(), 2);
    assert_eq!(back[0].text, "A");
    assert_eq!(back[1].text, "B");
}

#[test]
fn complete_last_entry_leaves_empty_journal() {
    let bytes = encode_tasks(&vec![task("only", 7)]);
    let out = complete_task(&bytes, 1).unwrap();
    assert_eq!(out.len(), 0);
    assert_eq!(collect_tasks(&out).unwrap().len(), 0);
}

#[test]
fn list_on_empty_journal_reports_empty_not_error() {
    let bytes: Vec<u8> = Vec::new();
    let lines = list_tasks(&bytes).expect("an empty journal lists fine");
    assert_eq!(lines.len(), 1);
    assert_eq!(lines[0], "Task list is empty.");
}

#[test]
fn listed_lines_pad_text_to_fifty_characters() {
    let bytes = encode_tasks(&vec![task("short", 0)]);
    let lines = list_tasks(&bytes).unwrap();
    assert_eq!(lines.len(), 1);
    let chars: Vec<char> = lines[0].chars().collect();
    // "1. " then fifty characters of padded text, then " [date]".
    assert!(chars.len() > 3 + 50 + 2);
    assert_eq!(&chars[0..3], &['1', '.', ' ']);
    assert_eq!(&chars[3..8], &['s', 'h', 'o', 'r', 't']);
    for i in 8..53 {
        assert_eq!(chars[i], ' ');
    }
    assert_eq!(chars[53], ' ');
    assert_eq!(chars[54], '[');
    assert_eq!(*chars.last().unwrap(), ']');
}

#[test]
fn listed_lines_keep_long_text_whole() {
    let long = "a text that is well over fifty characters long so that no padding is added here";
    let bytes = encode_tasks(&vec![task(long, 0)]);
    let lines = list_tasks(&bytes).unwrap();
    let prefix = format!("1. {}", long);
    assert!(lines[0].starts_with(&prefix));
    let chars: Vec<char> = lines[0].chars().collect();
    assert_eq!(chars[3 + long.chars().count()], ' ');
    assert_eq!(chars[4 + long.chars().count()], '[');
}

#[test]
fn list_on_malformed_journal_fails() {
    let bytes = vec![0u8, 1];
    assert_eq!(list_tasks(&bytes).unwrap_err(), JournalError::InvalidFormat);
}

#[test]
fn error_descriptions_name_the_fault() {
    assert_eq!(
        JournalError::InvalidFormat.describe(),
        "journal content is not a valid task list"
    );
    assert_eq!(JournalError::InvalidPosition.describe(), "invalid task position");
}

#[test]
fn end_to_end_scenario() {
    // Start with no file: the store treats that as zero bytes.
    let empty: Vec<u8> = Vec::new();
    let after_first = add_task(&empty, task("buy milk", 100)).unwrap();
    assert_eq!(collect_tasks(&after_first).unwrap().len(), 1);
    let after_second = add_task(&after_first, task("walk dog", 200)).unwrap();
    assert_eq!(collect_tasks(&after_second).unwrap().len(), 2);
    let lines = list_tasks(&after_second).unwrap();
    assert_eq!(lines.len(), 2);
    assert!(lines[0].starts_with("1. buy milk"));
    assert!(lines[1].starts_with("2. walk dog"));
    let after_done = complete_task(&after_second, 1).unwrap();
    let back = collect_tasks(&after_done).unwrap();
    assert_eq!(back.len(), 1);
    assert_eq!(back[0].text, "walk dog");
    let lines = list_tasks(&after_done).unwrap();
    assert_eq!(lines.len(), 1);
    assert!(lines[0].starts_with("1. walk dog"));
    assert!(lines[0].ends_with("]"));
}
