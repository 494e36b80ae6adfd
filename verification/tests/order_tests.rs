use todo_core::ops::list_todos;
use todo_core::order::order_for_display;
use todo_core::TodoItem;

fn make_todo(description: &str, priority: Option<char>, done_date: Option<&str>) -> TodoItem {
    TodoItem {
        line_number: 0,
        priority,
        description: description.to_string(),
        context: None,
        project: None,
        tags: vec![],
        start_date: "2025/11/29".to_string(),
        due_date: None,
        done_date: done_date.map(|s| s.to_string()),
    }
}

fn with_positions(mut items: Vec<TodoItem>) -> Vec<TodoItem> {
    for (i, t) in items.iter_mut().enumerate() {
        t.line_number = i + 1;
    }
    items
}

fn descriptions(items: &[TodoItem]) -> Vec<String> {
    items.iter().map(|t| t.description.clone()).collect()
}

#[test]
fn test_list_filters_done_items() {
    let todos = with_positions(vec![
        make_todo("Buy milk", None, None),
        make_todo("Send email", None, Some("2025/11/30")),
    ]);

    let shown = list_todos(todos, false, false);
    let names = descriptions(&shown);
    assert!(names.contains(&"Buy milk".to_string()));
    assert!(!names.contains(&"Send email".to_string()));
}

#[test]
fn test_list_all_shows_done_items() {
    let todos = with_positions(vec![
        make_todo("Buy milk", None, None),
        make_todo("Send email", None, Some("2025/11/30")),
    ]);

    let shown = list_todos(todos, true, false);
    let names = descriptions(&shown);
    assert!(names.contains(&"Buy milk".to_string()));
    assert!(names.contains(&"Send email".to_string()));
}

#[test]
fn test_list_priority_sorting() {
    let todos = with_positions(vec![
        make_todo("Task C", Some('C'), None),
        make_todo("Task A", Some('A'), None),
        make_todo("Task B", Some('B'), None),
    ]);

    let shown = list_todos(todos, false, true);
    assert_eq!(descriptions(&shown), vec!["Task A", "Task B", "Task C"]);
}

#[test]
fn test_priority_forced_orders_dateless_items() {
    // priorities C, A, B with no due dates come out A, B, C
    let todos = with_positions(vec![
        make_todo("Task C", Some('C'), None),
        make_todo("Task A", Some('A'), None),
        make_todo("Task B", Some('B'), None),
    ]);
    let shown = order_for_display(todos, true);
    assert_eq!(descriptions(&shown), vec!["Task A", "Task B", "Task C"]);
}

#[test]
fn test_due_with_priority_tier_orders_by_priority_first() {
    let mut one = make_todo("later but A", Some('A'), None);
    one.due_date = Some("2025/12/01".to_string());
    let mut two = make_todo("sooner but B", Some('B'), None);
    two.due_date = Some("2025/11/01".to_string());
    // priority governs inside the due+priority tier
    let shown = order_for_display(with_positions(vec![two, one]), false);
    assert_eq!(descriptions(&shown), vec!["later but A", "sooner but B"]);
}

#[test]
fn test_due_with_priority_tier_breaks_ties_by_due() {
    let mut one = make_todo("later", Some('A'), None);
    one.due_date = Some("2025/12/01".to_string());
    let mut two = make_todo("sooner", Some('A'), None);
    two.due_date = Some("2025/11/01".to_string());
    let shown = order_for_display(with_positions(vec![one, two]), false);
    assert_eq!(descriptions(&shown), vec!["sooner", "later"]);
}

#[test]
fn test_tier_precedence() {
    let mut due_and_pri = make_todo("both", Some('Z'), None);
    due_and_pri.due_date = Some("2025/12/31".to_string());
    let mut due_only = make_todo("due only", None, None);
    due_only.due_date = Some("2025/01/01".to_string());
    let pri_only = make_todo("pri only", Some('A'), None);
    let bare = make_todo("bare", None, None);

    let shown = order_for_display(
        with_positions(vec![bare, pri_only, due_only, due_and_pri]),
        false,
    );
    assert_eq!(
        descriptions(&shown),
        vec!["both", "due only", "pri only", "bare"]
    );
}

#[test]
fn test_due_only_tier_orders_by_due() {
    let mut a = make_todo("dec", None, None);
    a.due_date = Some("2025/12/01".to_string());
    let mut b = make_todo("nov", None, None);
    b.due_date = Some("2025/11/01".to_string());
    let shown = order_for_display(with_positions(vec![a, b]), false);
    assert_eq!(descriptions(&shown), vec!["nov", "dec"]);
}

#[test]
fn test_bare_items_keep_position_order() {
    let todos = with_positions(vec![
        make_todo("first", None, None),
        make_todo("second", None, None),
        make_todo("third", None, None),
    ]);
    let shown = order_for_display(todos, false);
    assert_eq!(descriptions(&shown), vec!["first", "second", "third"]);
}

#[test]
fn test_priority_forced_keeps_due_items_in_place() {
    let mut due_late = make_todo("due Z", Some('Z'), None);
    due_late.due_date = Some("2025/11/01".to_string());
    let mut due_only = make_todo("due bare", None, None);
    due_only.due_date = Some("2025/12/01".to_string());
    let pri = make_todo("pri B", Some('B'), None);
    let shown = order_for_display(with_positions(vec![pri, due_only, due_late]), true);
    assert_eq!(descriptions(&shown), vec!["due Z", "due bare", "pri B"]);
}

#[test]
fn test_equal_priorities_keep_position_order() {
    let todos = with_positions(vec![
        make_todo("first", Some('A'), None),
        make_todo("second", Some('A'), None),
    ]);
    let shown = order_for_display(todos, true);
    assert_eq!(descriptions(&shown), vec!["first", "second"]);
}
