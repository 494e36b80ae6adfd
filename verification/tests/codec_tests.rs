use todo_core::codec::{load_collection, parse_record, render_collection, render_item};
use todo_core::TodoItem;

fn item(
    description: &str,
    priority: Option<char>,
    context: Option<&str>,
    project: Option<&str>,
    tags: &[&str],
    start: &str,
    due: Option<&str>,
    done: Option<&str>,
) -> TodoItem {
    TodoItem {
        line_number: 0,
        priority,
        description: description.to_string(),
        context: context.map(|s| s.to_string()),
        project: project.map(|s| s.to_string()),
        tags: tags.iter().map(|s| s.to_string()).collect(),
        start_date: start.to_string(),
        due_date: due.map(|s| s.to_string()),
        done_date: done.map(|s| s.to_string()),
    }
}

#[test]
fn test_todo_item_serialization() {
    let todo = TodoItem {
        line_number: 1,
        priority: Some('A'),
        description: "Buy milk".to_string(),
        context: Some("shopping".to_string()),
        project: Some("Personal".to_string()),
        tags: vec!["urgent".to_string()],
        start_date: "2025/11/29".to_string(),
        due_date: None,
        done_date: None,
    };

    let json = render_item(&todo);
    assert!(json.contains("Buy milk"));
    assert!(json.contains("shopping"));
    assert!(json.contains("Personal"));
    assert!(json.contains("urgent"));
    assert!(!json.contains("line_number"));
}

#[test]
fn test_todo_item_deserialization() {
    let json = r#"{
            "priority": "A",
            "description": "Buy milk",
            "context": "shopping",
            "project": "Personal",
            "tags": ["urgent"],
            "start_date": "2025/11/29",
            "done_date": null
        }"#;

    let todo: TodoItem = parse_record(json).unwrap();
    assert_eq!(todo.priority, Some('A'));
    assert_eq!(todo.description, "Buy milk");
    assert_eq!(todo.context, Some("shopping".to_string()));
    assert_eq!(todo.project, Some("Personal".to_string()));
    assert_eq!(todo.tags.len(), 1);
    assert_eq!(todo.start_date, "2025/11/29");
    assert_eq!(todo.done_date, None);
}

#[test]
fn test_round_trip_three_records() {
    let items = vec![
        item(
            "Buy milk",
            Some('A'),
            Some("shopping"),
            Some("Personal"),
            &["urgent", "errand"],
            "2025/11/29",
            Some("2025/12/01"),
            None,
        ),
        item("Send email", None, None, None, &[], "2025/11/28", None, Some("2025/11/30")),
        item("Call dentist", Some('B'), None, Some("Health"), &[], "2025/11/27", None, None),
    ];
    let text = render_collection(&items);
    let loaded = load_collection(&text);

    assert_eq!(loaded.len(), items.len());
    for (i, (a, b)) in items.iter().zip(loaded.iter()).enumerate() {
        assert_eq!(b.line_number, i + 1);
        assert_eq!(a.priority, b.priority);
        assert_eq!(a.description, b.description);
        assert_eq!(a.context, b.context);
        assert_eq!(a.project, b.project);
        assert_eq!(a.tags, b.tags);
        assert_eq!(a.start_date, b.start_date);
        assert_eq!(a.due_date, b.due_date);
        assert_eq!(a.done_date, b.done_date);
    }
}

#[test]
fn test_round_trip_awkward_text() {
    let items = vec![item(
        "say \"hi\"\\later\n\ttabbed\u{1}",
        Some('"'),
        Some("a b"),
        None,
        &["x\"y"],
        "2025/11/29",
        None,
        None,
    )];
    let text = render_collection(&items);
    let loaded = load_collection(&text);
    assert_eq!(loaded.len(), 1);
    assert_eq!(loaded[0].description, items[0].description);
    assert_eq!(loaded[0].priority, items[0].priority);
    assert_eq!(loaded[0].context, items[0].context);
    assert_eq!(loaded[0].tags, items[0].tags);
}

#[test]
fn test_rendered_form_is_json() {
    let items = vec![item(
        "Buy \"special\" milk\n",
        Some('A'),
        Some("shopping"),
        None,
        &["urgent"],
        "2025/11/29",
        None,
        None,
    )];
    let text = render_collection(&items);
    let value: serde_json::Value = serde_json::from_str(&text).expect("rendered store must be JSON");
    assert_eq!(value[0]["description"], serde_json::Value::String("Buy \"special\" milk\n".to_string()));
    assert_eq!(value[0]["priority"], serde_json::Value::String("A".to_string()));
    assert_eq!(value[0]["context"], serde_json::Value::String("shopping".to_string()));
    assert_eq!(value[0]["project"], serde_json::Value::Null);
    assert_eq!(value[0]["tags"][0], serde_json::Value::String("urgent".to_string()));
}

#[test]
fn test_malformed_content_loads_empty() {
    assert_eq!(load_collection("").len(), 0);
    assert_eq!(load_collection("not json").len(), 0);
    assert_eq!(load_collection("[{\"priority\": }]").len(), 0);
    assert_eq!(load_collection("[] trailing").len(), 0);
}

#[test]
fn test_empty_collection_round_trip() {
    let items: Vec<TodoItem> = Vec::new();
    let text = render_collection(&items);
    assert_eq!(load_collection(&text).len(), 0);
}

#[test]
fn test_load_accepts_pretty_whitespace() {
    let text = "[\n  {\n    \"priority\": null,\n    \"description\": \"Buy milk\",\n    \"context\": null,\n    \"project\": null,\n    \"tags\": [],\n    \"start_date\": \"2025/11/29\",\n    \"done_date\": null\n  }\n]\n";
    let loaded = load_collection(text);
    assert_eq!(loaded.len(), 1);
    assert_eq!(loaded[0].description, "Buy milk");
    assert_eq!(loaded[0].due_date, None);
    assert_eq!(loaded[0].line_number, 1);
}
