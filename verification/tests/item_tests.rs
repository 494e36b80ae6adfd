use todo_core::TodoItem;

#[test]
fn test_todo_item_is_done() {
    let todo = TodoItem {
        line_number: 1,
        priority: None,
        description: "Buy milk".to_string(),
        context: None,
        project: None,
        tags: Vec::new(),
        start_date: "2025/11/29".to_string(),
        due_date: None,
        done_date: Some("2025/11/30".to_string()),
    };

    assert!(todo.is_done());
}

#[test]
fn test_todo_item_is_not_done() {
    let todo = TodoItem {
        line_number: 1,
        priority: None,
        description: "Buy milk".to_string(),
        context: None,
        project: None,
        tags: Vec::new(),
        start_date: "2025/11/29".to_string(),
        due_date: None,
        done_date: None,
    };

    assert!(!todo.is_done());
}
