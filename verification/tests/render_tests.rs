use rusty_journal::{append_decimal, pad_text, render_task_line};

#[test]
fn decimal_rendering_is_exact() {
    let mut s = String::new();
    append_decimal(&mut s, 0);
    assert_eq!(s, "0");
    let mut s = String::from("n=");
    append_decimal(&mut s, 1234567890);
    assert_eq!(s, "n=1234567890");
    let mut s = String::new();
    append_decimal(&mut s, u64::MAX);
    assert_eq!(s, "18446744073709551615");
}

#[test]
fn padding_reaches_exactly_fifty_characters() {
    let padded = pad_text(&String::from("abc"));
    assert_eq!(padded.chars().count(), 50);
    assert!(padded.starts_with("abc"));
    assert!(padded[3..].chars().all(|c| c == ' '));
    let long = "x".repeat(60);
    assert_eq!(pad_text(&long), long);
    let exact = "y".repeat(50);
    assert_eq!(pad_text(&exact), exact);
}

#[test]
fn rendered_line_has_the_documented_shape() {
    let line = render_task_line(12, &String::from("task"), &String::from("2020-01-02 03:04"));
    let mut expected = String::from("12. task");
    for _ in 0..46 {
        expected.push(' ');
    }
    expected.push_str(" [2020-01-02 03:04]");
    assert_eq!(line, expected);
}
