use todo_core::ops::{
    add_todo, assign_positions, check_done, done_check_message, is_affirmative, mark_done,
    set_priority, DoneCheck, PrOutcome,
};
use todo_core::TodoItem;

// November 30, 2025 as a day number.
const TODAY: i64 = 739585;

fn make_todo(description: &str, priority: Option<char>, done_date: Option<&str>) -> TodoItem {
    TodoItem {
        line_number: 0,
        priority,
        description: description.to_string(),
        context: None,
        project: None,
        tags: vec![],
        start_date: "2025/11/29".to_string(),
        due_date: None,
        done_date: done_date.map(|s| s.to_string()),
    }
}

#[test]
fn test_add_todo_with_metadata() {
    let mut todos: Vec<TodoItem> = Vec::new();
    add_todo(&mut todos, "Buy milk @shopping P:Personal T:urgent", TODAY);

    assert_eq!(todos.len(), 1);
    let t = &todos[0];
    assert_eq!(t.line_number, 1);
    assert_eq!(t.description, "Buy milk");
    assert_eq!(t.context, Some("shopping".to_string()));
    assert_eq!(t.project, Some("Personal".to_string()));
    assert_eq!(t.tags, vec!["urgent".to_string()]);
    assert_eq!(t.start_date, "2025/11/30");
    assert_eq!(t.priority, None);
    assert_eq!(t.due_date, None);
    assert_eq!(t.done_date, None);
}

#[test]
fn test_add_todo_with_due() {
    let mut todos: Vec<TodoItem> = Vec::new();
    add_todo(&mut todos, "Pay rent Due:+1d", TODAY);
    assert_eq!(todos[0].description, "Pay rent");
    assert_eq!(todos[0].due_date, Some("2025/12/01".to_string()));
}

#[test]
fn test_add_todo_with_invalid_due_left_unset() {
    let mut todos: Vec<TodoItem> = Vec::new();
    add_todo(&mut todos, "Pay rent Due:whenever", TODAY);
    assert_eq!(todos[0].description, "Pay rent");
    assert_eq!(todos[0].due_date, None);
}

#[test]
fn test_mark_done_sets_done_date() {
    let mut todos = assign_positions(vec![make_todo("Buy milk", None, None)]);
    assert!(matches!(check_done(&todos, 1), DoneCheck::Ready));
    mark_done(&mut todos, 1, TODAY);
    assert_eq!(todos[0].done_date, Some("2025/11/30".to_string()));
}

#[test]
fn test_mark_done_already_done() {
    let todos = assign_positions(vec![make_todo("Buy milk", None, Some("2025/11/30"))]);
    let before: Vec<String> = todos.iter().map(|t| t.description.clone()).collect();

    let outcome = check_done(&todos, 1);
    assert!(matches!(outcome, DoneCheck::AlreadyDone));
    let msg = done_check_message(&outcome);
    assert!(msg.contains("already marked as done"));

    // the collection is unchanged
    let after: Vec<String> = todos.iter().map(|t| t.description.clone()).collect();
    assert_eq!(before, after);
    assert_eq!(todos[0].done_date, Some("2025/11/30".to_string()));
}

#[test]
fn test_mark_done_invalid_number() {
    let todos = assign_positions(vec![make_todo("Buy milk", None, None)]);
    assert!(matches!(check_done(&todos, 0), DoneCheck::NotFound));
    assert!(matches!(check_done(&todos, 2), DoneCheck::NotFound));
    assert!(done_check_message(&check_done(&todos, 2)).contains("does not exist"));
}

#[test]
fn test_set_priority() {
    let mut todos = assign_positions(vec![make_todo("Buy milk", None, None)]);
    let r = set_priority(&mut todos, "A", 1);
    assert!(matches!(r, PrOutcome::Assigned('A')));
    assert_eq!(todos[0].priority, Some('A'));
}

#[test]
fn test_change_priority() {
    let mut todos = assign_positions(vec![make_todo("Buy milk", Some('B'), None)]);
    let r = set_priority(&mut todos, "A", 1);
    assert!(matches!(r, PrOutcome::Assigned('A')));
    assert_eq!(todos[0].priority, Some('A'));
}

#[test]
fn test_clear_priority() {
    let mut todos = assign_positions(vec![make_todo("Buy milk", Some('A'), None)]);
    let r = set_priority(&mut todos, "clear", 1);
    assert!(matches!(r, PrOutcome::Cleared));
    assert_eq!(todos[0].priority, None);
}

#[test]
fn test_clear_priority_case_insensitive() {
    let mut todos = assign_positions(vec![make_todo("Buy milk", Some('A'), None)]);
    let r = set_priority(&mut todos, "CLEAR", 1);
    assert!(matches!(r, PrOutcome::Cleared));
    assert_eq!(todos[0].priority, None);
}

#[test]
fn test_lowercase_priority_converted() {
    let mut todos = assign_positions(vec![make_todo("Buy milk", None, None)]);
    let r = set_priority(&mut todos, "c", 1);
    assert!(matches!(r, PrOutcome::Assigned('C')));
    assert_eq!(todos[0].priority, Some('C'));
}

#[test]
fn test_priority_invalid_number() {
    let mut todos = assign_positions(vec![make_todo("Buy milk", None, None)]);
    let r = set_priority(&mut todos, "A", 5);
    assert!(matches!(r, PrOutcome::NotFound));
    assert_eq!(todos[0].priority, None);
}

#[test]
fn test_priority_must_be_single_letter() {
    let mut todos = assign_positions(vec![make_todo("Buy milk", None, None)]);
    assert!(matches!(set_priority(&mut todos, "AB", 1), PrOutcome::Invalid));
    assert!(matches!(set_priority(&mut todos, "5", 1), PrOutcome::Invalid));
    assert!(matches!(set_priority(&mut todos, "", 1), PrOutcome::Invalid));
    assert_eq!(todos[0].priority, None);
}

#[test]
fn test_assign_positions() {
    let todos = assign_positions(vec![
        make_todo("Task 1", None, None),
        make_todo("Task 2", None, None),
        make_todo("Task 3", None, None),
    ]);
    let positions: Vec<usize> = todos.iter().map(|t| t.line_number).collect();
    assert_eq!(positions, vec![1, 2, 3]);
}

#[test]
fn test_is_affirmative() {
    assert!(is_affirmative("Y"));
    assert!(is_affirmative("y"));
    assert!(is_affirmative("  Y\n"));
    assert!(!is_affirmative("yes"));
    assert!(!is_affirmative(""));
    assert!(!is_affirmative("N"));
}
