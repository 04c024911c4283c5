use chainlink::model::{Priority, Status};
use chainlink::store::Store;

#[test]
fn test_update_title() {
    let mut store = Store::new();
    let issue_id = store
        .create_issue_checked(String::from("Original title"), None, "medium", 100)
        .unwrap();

    let result = store.update_issue_checked(issue_id, Some(String::from("New title")), None, None, 110);
    assert!(result.is_ok());

    let issue = store.get_issue(issue_id).unwrap();
    assert_eq!(issue.title, "New title");
}

#[test]
fn test_update_description() {
    let mut store = Store::new();
    let issue_id = store
        .create_issue_checked(String::from("Test"), None, "medium", 100)
        .unwrap();

    let result =
        store.update_issue_checked(issue_id, None, Some(String::from("New description")), None, 110);
    assert!(result.is_ok());

    let issue = store.get_issue(issue_id).unwrap();
    assert_eq!(issue.description, Some(String::from("New description")));
}

#[test]
fn test_update_priority() {
    let mut store = Store::new();
    let issue_id = store
        .create_issue_checked(String::from("Test"), None, "medium", 100)
        .unwrap();

    let result = store.update_issue_checked(issue_id, None, None, Some(String::from("critical")), 110);
    assert!(result.is_ok());

    let issue = store.get_issue(issue_id).unwrap();
    assert_eq!(issue.priority, Priority::Critical);
}

#[test]
fn test_update_all_fields() {
    let mut store = Store::new();
    let issue_id = store
        .create_issue_checked(String::from("Original"), Some(String::from("Old desc")), "low", 100)
        .unwrap();

    let result = store.update_issue_checked(
        issue_id,
        Some(String::from("New title")),
        Some(String::from("New description")),
        Some(String::from("high")),
        110,
    );
    assert!(result.is_ok());

    let issue = store.get_issue(issue_id).unwrap();
    assert_eq!(issue.title, "New title");
    assert_eq!(issue.description, Some(String::from("New description")));
    assert_eq!(issue.priority, Priority::High);
}

#[test]
fn test_update_nothing_fails() {
    let mut store = Store::new();
    let issue_id = store
        .create_issue_checked(String::from("Test"), None, "medium", 100)
        .unwrap();

    let result = store.update_issue_checked(issue_id, None, None, None, 110);
    assert!(result.is_err());
    assert!(result.unwrap_err().message().contains("Nothing to update"));
}

#[test]
fn test_update_nonexistent_issue() {
    let mut store = Store::new();

    let result = store.update_issue_checked(99999, Some(String::from("New title")), None, None, 110);
    assert!(result.is_err());
    assert!(result.unwrap_err().message().contains("not found"));
}

#[test]
fn test_update_invalid_priority() {
    let mut store = Store::new();
    let issue_id = store
        .create_issue_checked(String::from("Test"), None, "medium", 100)
        .unwrap();

    let result = store.update_issue_checked(issue_id, None, None, Some(String::from("urgent")), 110);
    assert!(result.is_err());
    assert!(result.unwrap_err().message().contains("Invalid priority"));
}

#[test]
fn test_update_preserves_unchanged_fields() {
    let mut store = Store::new();
    let issue_id = store
        .create_issue_checked(
            String::from("Original title"),
            Some(String::from("Original desc")),
            "high",
            100,
        )
        .unwrap();

    store
        .update_issue_checked(issue_id, Some(String::from("New title")), None, None, 110)
        .unwrap();

    let issue = store.get_issue(issue_id).unwrap();
    assert_eq!(issue.title, "New title");
    assert_eq!(issue.description, Some(String::from("Original desc")));
    assert_eq!(issue.priority, Priority::High);
}

#[test]
fn test_update_unicode_title() {
    let mut store = Store::new();
    let issue_id = store
        .create_issue_checked(String::from("Original"), None, "medium", 100)
        .unwrap();

    let result = store.update_issue_checked(
        issue_id,
        Some(String::from("\u{65b0}\u{3057}\u{3044}\u{30bf}\u{30a4}\u{30c8}\u{30eb} \u{1f389}")),
        None,
        None,
        110,
    );
    assert!(result.is_ok());

    let issue = store.get_issue(issue_id).unwrap();
    assert_eq!(
        issue.title,
        "\u{65b0}\u{3057}\u{3044}\u{30bf}\u{30a4}\u{30c8}\u{30eb} \u{1f389}"
    );
}

#[test]
fn test_update_empty_description() {
    let mut store = Store::new();
    let issue_id = store
        .create_issue_checked(String::from("Test"), Some(String::from("Has description")), "medium", 100)
        .unwrap();

    let result = store.update_issue_checked(issue_id, None, Some(String::from("")), None, 110);
    assert!(result.is_ok());

    let issue = store.get_issue(issue_id).unwrap();
    assert_eq!(issue.description, Some(String::from("")));
}

#[test]
fn test_update_sql_injection() {
    let mut store = Store::new();
    let issue_id = store
        .create_issue_checked(String::from("Original"), None, "medium", 100)
        .unwrap();

    let malicious = "'; DROP TABLE issues; --";
    let result =
        store.update_issue_checked(issue_id, Some(String::from(malicious)), None, None, 110);
    assert!(result.is_ok());

    let issue = store.get_issue(issue_id).unwrap();
    assert_eq!(issue.title, malicious);

    let issues = store.list_issues(None, None, None);
    assert!(!issues.is_empty());
}

#[test]
fn test_update_closed_issue() {
    let mut store = Store::new();
    let issue_id = store
        .create_issue_checked(String::from("Test"), None, "medium", 100)
        .unwrap();
    store.close_issue(issue_id, 105);

    let result = store.update_issue_checked(
        issue_id,
        Some(String::from("Updated closed issue")),
        None,
        None,
        110,
    );
    assert!(result.is_ok());

    let issue = store.get_issue(issue_id).unwrap();
    assert_eq!(issue.title, "Updated closed issue");
    assert_eq!(issue.status, Status::Closed);
}
