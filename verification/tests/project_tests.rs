use todo_core::ops::list_projects;
use todo_core::TodoItem;

fn with_project(description: &str, project: Option<&str>, done_date: Option<&str>) -> TodoItem {
    TodoItem {
        line_number: 0,
        priority: None,
        description: description.to_string(),
        context: None,
        project: project.map(|s| s.to_string()),
        tags: vec![],
        start_date: "2025/11/29".to_string(),
        due_date: None,
        done_date: done_date.map(|s| s.to_string()),
    }
}

#[test]
fn test_projects_single() {
    let todos = vec![with_project("Task 1", Some("Backend"), None)];
    let projects = list_projects(&todos);
    assert_eq!(projects, vec!["Backend".to_string()]);
}

#[test]
fn test_projects_multiple_unique() {
    let todos = vec![
        with_project("Task 1", Some("Backend"), None),
        with_project("Task 2", Some("Frontend"), None),
        with_project("Task 3", Some("API"), None),
    ];
    let projects = list_projects(&todos);
    // alphabetical order
    assert_eq!(
        projects,
        vec!["API".to_string(), "Backend".to_string(), "Frontend".to_string()]
    );
}

#[test]
fn test_projects_with_duplicates() {
    let todos = vec![
        with_project("Task 1", Some("Backend"), None),
        with_project("Task 2", Some("Frontend"), None),
        with_project("Task 3", Some("Backend"), None),
    ];
    let projects = list_projects(&todos);
    let backend_count = projects.iter().filter(|p| p.as_str() == "Backend").count();
    assert_eq!(backend_count, 1);
}

#[test]
fn test_projects_includes_done_items() {
    let todos = vec![
        with_project("Task 1", Some("Backend"), Some("2025/11/30")),
        with_project("Task 2", Some("Frontend"), None),
    ];
    let projects = list_projects(&todos);
    assert!(projects.contains(&"Backend".to_string()));
    assert!(projects.contains(&"Frontend".to_string()));
}

#[test]
fn test_projects_empty_when_none_set() {
    let todos = vec![with_project("Task 1", None, None)];
    assert!(list_projects(&todos).is_empty());
}
