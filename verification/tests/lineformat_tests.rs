use todo_core::lineformat::{parse_line, render_line};

// November 30, 2025 as a day number.
const TODAY: i64 = 739585;

#[test]
fn test_parse_line_simple() {
    let item = parse_line("Buy milk S:2025/11/29", TODAY);
    assert_eq!(item.description, "Buy milk");
    assert_eq!(item.start_date, "2025/11/29");
    assert_eq!(item.priority, None);
    assert_eq!(item.done_date, None);
}

#[test]
fn test_parse_line_with_priority() {
    let item = parse_line("(A) Important task S:2025/11/29", TODAY);
    assert_eq!(item.priority, Some('A'));
    assert_eq!(item.description, "Important task");
}

#[test]
fn test_parse_line_with_metadata() {
    let item = parse_line("Buy milk @shopping P:Personal T:urgent S:2025/11/29", TODAY);
    assert_eq!(item.description, "Buy milk");
    assert_eq!(item.context, Some("shopping".to_string()));
    assert_eq!(item.project, Some("Personal".to_string()));
    assert_eq!(item.tags, vec!["urgent".to_string()]);
    assert_eq!(item.start_date, "2025/11/29");
}

#[test]
fn test_parse_line_with_done_date() {
    let item = parse_line("Completed task S:2025/11/28 D:2025/11/29", TODAY);
    assert_eq!(item.description, "Completed task");
    assert_eq!(item.start_date, "2025/11/28");
    assert_eq!(item.done_date, Some("2025/11/29".to_string()));
}

#[test]
fn test_parse_line_lowercase_markers() {
    let item = parse_line("(b) Task @home p:personal t:quick s:2025/11/29 d:2025/11/30", TODAY);
    assert_eq!(item.priority, Some('B'));
    assert_eq!(item.description, "Task");
    assert_eq!(item.context, Some("home".to_string()));
    assert_eq!(item.project, Some("personal".to_string()));
    assert_eq!(item.tags, vec!["quick".to_string()]);
    assert_eq!(item.start_date, "2025/11/29");
    assert_eq!(item.done_date, Some("2025/11/30".to_string()));
}

#[test]
fn test_parse_line_missing_start_defaults_empty() {
    let item = parse_line("Just words", TODAY);
    assert_eq!(item.description, "Just words");
    assert_eq!(item.start_date, "");
}

#[test]
fn test_parse_line_due_relative() {
    let item = parse_line("Pay rent Due:+1d S:2025/11/29", TODAY);
    assert_eq!(item.due_date, Some("2025/12/01".to_string()));
}

#[test]
fn test_parse_line_marker_needs_space() {
    let item = parse_line("(A)Task", TODAY);
    assert_eq!(item.priority, None);
    assert_eq!(item.description, "(A)Task");
}

#[test]
fn test_render_line_shapes() {
    let item = parse_line("(a) Fix roof @home P:House T:urgent T:big S:2025/11/01 D:2025/11/20", TODAY);
    let line = render_line(&item);
    assert_eq!(
        line,
        "(A) Fix roof @home P:House T:urgent T:big S:2025/11/01 D:2025/11/20"
    );
}

#[test]
fn test_render_line_round_trips() {
    let original = "(C) Write report @work P:Quarterly T:writing S:2025/10/05";
    let item = parse_line(original, TODAY);
    let rendered = render_line(&item);
    assert_eq!(rendered, original);
    let again = parse_line(&rendered, TODAY);
    assert_eq!(again.description, item.description);
    assert_eq!(again.priority, item.priority);
    assert_eq!(again.context, item.context);
    assert_eq!(again.project, item.project);
    assert_eq!(again.tags, item.tags);
    assert_eq!(again.start_date, item.start_date);
}
