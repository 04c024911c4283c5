use chainlink::store::Store;

#[test]
fn test_export_issue_basic() {
    let mut store = Store::new();
    let id = store
        .create_issue_checked(String::from("Test issue"), None, "medium", 100)
        .unwrap();
    let issue = store.get_issue(id).unwrap();
    let exported = store.export_issue(issue);
    assert_eq!(exported.id, id);
    assert_eq!(exported.title, "Test issue");
    assert_eq!(exported.priority, "medium");
    assert_eq!(exported.status, "open");
}

#[test]
fn test_export_issue_with_labels() {
    let mut store = Store::new();
    let id = store
        .create_issue_checked(String::from("Test issue"), None, "medium", 100)
        .unwrap();
    store.add_label(id, String::from("bug")).unwrap();
    store.add_label(id, String::from("urgent")).unwrap();
    let issue = store.get_issue(id).unwrap();
    let exported = store.export_issue(issue);
    assert_eq!(exported.labels.len(), 2);
    assert_eq!(exported.labels, vec![String::from("bug"), String::from("urgent")]);
}

#[test]
fn test_export_issue_with_comments() {
    let mut store = Store::new();
    let id = store
        .create_issue_checked(String::from("Test issue"), None, "medium", 100)
        .unwrap();
    store.add_comment(id, String::from("First comment"), 101).unwrap();
    store.add_comment(id, String::from("Second comment"), 102).unwrap();
    let issue = store.get_issue(id).unwrap();
    let exported = store.export_issue(issue);
    assert_eq!(exported.comments.len(), 2);
}

#[test]
fn test_export_closed_issue() {
    let mut store = Store::new();
    let id = store
        .create_issue_checked(String::from("Test issue"), None, "medium", 100)
        .unwrap();
    store.close_issue(id, 110);
    let issue = store.get_issue(id).unwrap();
    let exported = store.export_issue(issue);
    assert_eq!(exported.status, "closed");
    assert!(exported.closed_at.is_some());
}

#[test]
fn test_export_data_envelope() {
    let mut store = Store::new();
    store
        .create_issue_checked(String::from("Issue 1"), None, "high", 100)
        .unwrap();
    store
        .create_issue_checked(String::from("Issue 2"), Some(String::from("Description")), "low", 101)
        .unwrap();
    let data = store.export_data(200);
    assert_eq!(data.version, 1);
    assert_eq!(data.issues.len(), 2);
    // Newest first.
    assert_eq!(data.issues[0].title, "Issue 2");
    assert_eq!(data.issues[1].title, "Issue 1");
}

#[test]
fn test_export_timestamps_are_rfc3339() {
    let mut store = Store::new();
    // 2024-01-01T00:00:00Z in epoch seconds.
    let id = store
        .create_issue_checked(String::from("Dated"), None, "medium", 1704067200)
        .unwrap();
    let issue = store.get_issue(id).unwrap();
    let exported = store.export_issue(issue);
    assert!(exported.created_at.starts_with("2024-01-01T00:00:00"));
}

#[test]
fn test_export_unicode_content() {
    let mut store = Store::new();
    let id = store
        .create_issue_checked(
            String::from("Test \u{1f41b}"),
            Some(String::from("Description \u{3b1}\u{3b2}\u{3b3}")),
            "medium",
            100,
        )
        .unwrap();
    store.add_label(id, String::from("\u{30d0}\u{30b0}")).unwrap();
    let data = store.export_data(200);
    assert_eq!(data.issues[0].title, "Test \u{1f41b}");
}
