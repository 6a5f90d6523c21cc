use chainlink::commands::create::{get_template, list_templates, templates, validate_priority};


#[test]
fn test_validate_priority_valid() {
    assert!(validate_priority("low"));
    assert!(validate_priority("medium"));
    assert!(validate_priority("high"));
    assert!(validate_priority("critical"));
}

#[test]
fn test_validate_priority_invalid() {
    assert!(!validate_priority(""));
    assert!(!validate_priority("urgent"));
    assert!(!validate_priority("LOW")); // Case sensitive
    assert!(!validate_priority("MEDIUM"));
    assert!(!validate_priority("High"));
    assert!(!validate_priority("CRITICAL"));
    assert!(!validate_priority(" medium"));
    assert!(!validate_priority("medium "));
    assert!(!validate_priority("medium\n"));
}

#[test]
fn test_validate_priority_malicious() {
    // Security: ensure no injection vectors
    assert!(!validate_priority("'; DROP TABLE issues; --"));
    assert!(!validate_priority("high\0medium"));
    assert!(!validate_priority("medium; DELETE FROM issues"));
    assert!(!validate_priority("<script>alert('xss')</script>"));
}

#[test]
fn test_get_template_exists() {
    let bug = get_template("bug");
    assert!(bug.is_some());
    let template = bug.unwrap();
    assert_eq!(template.name, "bug");
    assert_eq!(template.priority, "high");
    assert_eq!(template.label, "bug");
    assert!(template.description_prefix.is_some());
}

#[test]
fn test_get_template_not_found() {
    assert!(get_template("nonexistent").is_none());
    assert!(get_template("").is_none());
    assert!(get_template("Bug").is_none()); // Case sensitive
    assert!(get_template("BUG").is_none());
}

#[test]
fn test_list_templates() {
    let templates = list_templates();
    assert!(templates.contains(&"bug"));
    assert!(templates.contains(&"feature"));
    assert!(templates.contains(&"refactor"));
    assert!(templates.contains(&"research"));
    assert!(templates.contains(&"audit"));
    assert!(templates.contains(&"continuation"));
    assert!(templates.contains(&"investigation"));
    assert_eq!(templates.len(), 7);
}

#[test]
fn test_template_fields() {
    // Verify all templates have required fields
    for template in templates() {
        assert!(!template.name.is_empty());
        assert!(validate_priority(template.priority));
        assert!(!template.label.is_empty());
    }
}

#[test]
fn test_template_bug_description_prefix() {
    let template = get_template("bug").unwrap();
    let prefix = template.description_prefix.unwrap();
    assert!(prefix.contains("Steps to reproduce"));
    assert!(prefix.contains("Expected"));
    assert!(prefix.contains("Actual"));
}

#[test]
fn test_template_feature_description_prefix() {
    let template = get_template("feature").unwrap();
    let prefix = template.description_prefix.unwrap();
    assert!(prefix.contains("Goal"));
    assert!(prefix.contains("Acceptance criteria"));
}
