use todo_core::tokenizer::parse_metadata;

#[test]
fn test_parse_metadata_simple() {
    let input = "Buy milk";
    let (desc, context, project, tags) = parse_metadata(input);

    assert_eq!(desc, "Buy milk");
    assert_eq!(context, None);
    assert_eq!(project, None);
    assert_eq!(tags.len(), 0);
}

#[test]
fn test_parse_metadata_with_context() {
    let input = "Buy milk @shopping";
    let (desc, context, project, tags) = parse_metadata(input);

    assert_eq!(desc, "Buy milk");
    assert_eq!(context, Some("shopping".to_string()));
    assert_eq!(project, None);
    assert_eq!(tags.len(), 0);
}

#[test]
fn test_parse_metadata_with_project() {
    let input = "Buy milk P:Personal";
    let (desc, context, project, tags) = parse_metadata(input);

    assert_eq!(desc, "Buy milk");
    assert_eq!(context, None);
    assert_eq!(project, Some("Personal".to_string()));
    assert_eq!(tags.len(), 0);
}

#[test]
fn test_parse_metadata_with_tags() {
    let input = "Review code T:urgent T:backend";
    let (desc, context, project, tags) = parse_metadata(input);

    assert_eq!(desc, "Review code");
    assert_eq!(context, None);
    assert_eq!(project, None);
    assert_eq!(tags.len(), 2);
    assert_eq!(tags[0], "urgent");
    assert_eq!(tags[1], "backend");
}

#[test]
fn test_parse_metadata_complex() {
    let input = "Send email about meeting @work P:ProjectX T:urgent T:important";
    let (desc, context, project, tags) = parse_metadata(input);

    assert_eq!(desc, "Send email about meeting");
    assert_eq!(context, Some("work".to_string()));
    assert_eq!(project, Some("ProjectX".to_string()));
    assert_eq!(tags.len(), 2);
    assert_eq!(tags[0], "urgent");
    assert_eq!(tags[1], "important");
}

#[test]
fn test_parse_metadata_first_context_only() {
    let input = "Task @first @second";
    let (desc, context, _project, _tags) = parse_metadata(input);

    assert_eq!(desc, "Task");
    assert_eq!(context, Some("first".to_string()));
}

#[test]
fn test_parse_metadata_first_project_only() {
    let input = "Task P:First P:Second";
    let (desc, _context, project, _tags) = parse_metadata(input);

    assert_eq!(desc, "Task");
    assert_eq!(project, Some("First".to_string()));
}

#[test]
fn test_parse_metadata_lowercase_project() {
    let input = "Buy milk p:Personal";
    let (desc, _context, project, _tags) = parse_metadata(input);

    assert_eq!(desc, "Buy milk");
    assert_eq!(project, Some("Personal".to_string()));
}

#[test]
fn test_parse_metadata_lowercase_tags() {
    let input = "Fix bug t:urgent t:backend";
    let (desc, _context, _project, tags) = parse_metadata(input);

    assert_eq!(desc, "Fix bug");
    assert_eq!(tags.len(), 2);
    assert_eq!(tags[0], "urgent");
    assert_eq!(tags[1], "backend");
}

#[test]
fn test_parse_metadata_mixed_case() {
    let input = "Task p:Project1 T:tag1 t:tag2 P:Project2";
    let (desc, _context, project, tags) = parse_metadata(input);

    assert_eq!(desc, "Task");
    assert_eq!(project, Some("Project1".to_string()));
    assert_eq!(tags.len(), 2);
    assert_eq!(tags[0], "tag1");
    assert_eq!(tags[1], "tag2");
}

#[test]
fn test_parse_metadata_all_fields() {
    let input = "Buy milk @shopping P:Personal T:urgent";
    let (desc, context, project, tags) = parse_metadata(input);

    assert_eq!(desc, "Buy milk");
    assert_eq!(context, Some("shopping".to_string()));
    assert_eq!(project, Some("Personal".to_string()));
    assert_eq!(tags, vec!["urgent".to_string()]);
}

#[test]
fn test_parse_metadata_due_token_consumed() {
    let input = "Pay rent Due:2025-12-01";
    let (desc, context, project, tags) = parse_metadata(input);

    assert_eq!(desc, "Pay rent");
    assert_eq!(context, None);
    assert_eq!(project, None);
    assert_eq!(tags.len(), 0);
}

#[test]
fn test_tokenize_due_payload() {
    let t = todo_core::tokenizer::tokenize("Pay rent Due:2025-12-01", false);
    assert_eq!(t.description, "Pay rent");
    assert_eq!(t.due, Some("2025-12-01".to_string()));
}

#[test]
fn test_parse_metadata_bare_at_sign_is_text() {
    let (desc, context, _project, _tags) = parse_metadata("weigh @ home");
    assert_eq!(desc, "weigh @ home");
    assert_eq!(context, None);
}

#[test]
fn test_parse_metadata_empty_input() {
    let (desc, context, project, tags) = parse_metadata("");
    assert_eq!(desc, "");
    assert_eq!(context, None);
    assert_eq!(project, None);
    assert_eq!(tags.len(), 0);
}

#[test]
fn test_parse_metadata_only_metadata() {
    let (desc, context, project, tags) = parse_metadata("@ctx P:proj T:tag");
    assert_eq!(desc, "");
    assert_eq!(context, Some("ctx".to_string()));
    assert_eq!(project, Some("proj".to_string()));
    assert_eq!(tags, vec!["tag".to_string()]);
}
