use todo_core::filter::{filter_by_age, filter_done, filter_hide_waiting, is_overdue};
use todo_core::TodoItem;

// November 30, 2025 as a day number.
const TODAY: i64 = 739585;

fn started(description: &str, start: &str) -> TodoItem {
    TodoItem {
        line_number: 0,
        priority: None,
        description: description.to_string(),
        context: None,
        project: None,
        tags: vec![],
        start_date: start.to_string(),
        due_date: None,
        done_date: None,
    }
}

#[test]
fn test_filter_by_age_keeps_old_items() {
    let items = vec![
        started("old", "2025/10/01"),
        started("recent", "2025/11/30"),
        started("boundary", "2025/11/23"),
    ];
    // one week back from 2025/11/30 is 2025/11/23
    let kept = filter_by_age(items, "+1w", TODAY).unwrap();
    let names: Vec<&str> = kept.iter().map(|t| t.description.as_str()).collect();
    assert_eq!(names, vec!["old", "boundary"]);
}

#[test]
fn test_filter_by_age_bad_token_is_error() {
    let items = vec![started("old", "2025/10/01")];
    let err = filter_by_age(items, "+x", TODAY).unwrap_err();
    assert_eq!(err.token, "+x");
}

#[test]
fn test_filter_done_keeps_open_items() {
    let mut done = started("done", "2025/11/01");
    done.done_date = Some("2025/11/02".to_string());
    let open = started("open", "2025/11/01");
    let kept = filter_done(vec![done.clone(), open.clone()], false);
    assert_eq!(kept.len(), 1);
    assert_eq!(kept[0].description, "open");
    let all = filter_done(vec![done, open], true);
    assert_eq!(all.len(), 2);
}

#[test]
fn test_filter_hide_waiting() {
    let mut wf = started("waiting", "2025/11/01");
    wf.context = Some("WF".to_string());
    let mut home = started("active", "2025/11/01");
    home.context = Some("home".to_string());
    let kept = filter_hide_waiting(vec![wf.clone(), home.clone()], true);
    assert_eq!(kept.len(), 1);
    assert_eq!(kept[0].description, "active");
    let all = filter_hide_waiting(vec![wf, home], false);
    assert_eq!(all.len(), 2);
}

#[test]
fn test_is_overdue() {
    let today = "2025/11/30";
    let mut item = started("due yesterday", "2025/11/01");
    item.due_date = Some("2025/11/29".to_string());
    assert!(is_overdue(&item, today));

    item.due_date = Some("2025/11/30".to_string());
    assert!(!is_overdue(&item, today));

    item.due_date = Some("2025/12/01".to_string());
    assert!(!is_overdue(&item, today));

    item.due_date = None;
    assert!(!is_overdue(&item, today));
}
