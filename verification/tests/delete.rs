use chainlink::store::Store;

#[test]
fn test_delete_existing_issue_force() {
    let mut store = Store::new();
    let issue_id = store
        .create_issue_checked(String::from("To delete"), None, "medium", 100)
        .unwrap();

    let result = store.delete_issue_checked(issue_id);
    assert!(result.is_ok());

    assert!(store.get_issue(issue_id).is_none());
}

#[test]
fn test_delete_nonexistent_issue() {
    let mut store = Store::new();

    let result = store.delete_issue_checked(99999);
    assert!(result.is_err());
    assert!(result.unwrap_err().message().contains("not found"));
}

#[test]
fn test_delete_cascades_labels() {
    let mut store = Store::new();
    let issue_id = store
        .create_issue_checked(String::from("Test"), None, "medium", 100)
        .unwrap();
    store.add_label(issue_id, String::from("bug")).unwrap();
    store.add_label(issue_id, String::from("urgent")).unwrap();

    store.delete_issue_checked(issue_id).unwrap();

    let labels = store.get_labels(issue_id);
    assert!(labels.is_empty());
}

#[test]
fn test_delete_cascades_comments() {
    let mut store = Store::new();
    let issue_id = store
        .create_issue_checked(String::from("Test"), None, "medium", 100)
        .unwrap();
    store.add_comment(issue_id, String::from("Comment 1"), 101).unwrap();
    store.add_comment(issue_id, String::from("Comment 2"), 102).unwrap();

    store.delete_issue_checked(issue_id).unwrap();

    let comments = store.get_comments(issue_id);
    assert!(comments.is_empty());
}

#[test]
fn test_delete_cascades_subissues() {
    let mut store = Store::new();
    let parent_id = store
        .create_issue_checked(String::from("Parent"), None, "high", 100)
        .unwrap();
    let child1 = store
        .create_subissue_checked(parent_id, String::from("Child 1"), None, "medium", 101)
        .unwrap();
    let child2 = store
        .create_subissue_checked(parent_id, String::from("Child 2"), None, "low", 102)
        .unwrap();

    store.delete_issue_checked(parent_id).unwrap();

    assert!(store.get_issue(child1).is_none());
    assert!(store.get_issue(child2).is_none());
}

#[test]
fn test_delete_removes_dependencies() {
    let mut store = Store::new();
    let blocker = store
        .create_issue_checked(String::from("Blocker"), None, "high", 100)
        .unwrap();
    let blocked = store
        .create_issue_checked(String::from("Blocked"), None, "medium", 101)
        .unwrap();
    store.add_dependency(blocked, blocker).unwrap();

    store.delete_issue_checked(blocker).unwrap();

    let blockers = store.get_blockers(blocked);
    assert!(!blockers.contains(&blocker));
}

#[test]
fn test_delete_closed_issue() {
    let mut store = Store::new();
    let issue_id = store
        .create_issue_checked(String::from("Closed issue"), None, "medium", 100)
        .unwrap();
    store.close_issue(issue_id, 110);

    let result = store.delete_issue_checked(issue_id);
    assert!(result.is_ok());

    assert!(store.get_issue(issue_id).is_none());
}

#[test]
fn test_delete_archived_issue() {
    let mut store = Store::new();
    let issue_id = store
        .create_issue_checked(String::from("Archived issue"), None, "medium", 100)
        .unwrap();
    store.close_issue(issue_id, 110);
    store.archive_issue(issue_id, 120).unwrap();

    let result = store.delete_issue_checked(issue_id);
    assert!(result.is_ok());

    assert!(store.get_issue(issue_id).is_none());
}

#[test]
fn test_delete_issue_with_timer() {
    let mut store = Store::new();
    let issue_id = store
        .create_issue_checked(String::from("Timed issue"), None, "medium", 100)
        .unwrap();
    store.start_timer(issue_id, 110).unwrap();

    let result = store.delete_issue_checked(issue_id);
    assert!(result.is_ok());

    assert!(store.get_issue(issue_id).is_none());
    assert!(store.get_active_timer().is_none());
}

#[test]
fn test_delete_issue_in_milestone() {
    let mut store = Store::new();
    let issue_id = store
        .create_issue_checked(String::from("Milestone issue"), None, "medium", 100)
        .unwrap();
    let milestone_id = store.create_milestone(String::from("v1.0"), None, 101).unwrap();
    store.add_issue_to_milestone(milestone_id, issue_id).unwrap();

    let result = store.delete_issue_checked(issue_id);
    assert!(result.is_ok());

    assert!(store.get_milestone(milestone_id).is_some());
    let issues = store.get_milestone_issues(milestone_id);
    assert!(issues.is_empty());
}

#[test]
fn test_delete_multiple_issues() {
    let mut store = Store::new();
    let id1 = store
        .create_issue_checked(String::from("Issue 1"), None, "medium", 100)
        .unwrap();
    let id2 = store
        .create_issue_checked(String::from("Issue 2"), None, "medium", 101)
        .unwrap();
    let id3 = store
        .create_issue_checked(String::from("Issue 3"), None, "medium", 102)
        .unwrap();

    store.delete_issue_checked(id1).unwrap();
    store.delete_issue_checked(id2).unwrap();

    let issues = store.list_issues(None, None, None);
    assert_eq!(issues.len(), 1);
    assert_eq!(issues[0].id, id3);
}

#[test]
fn test_delete_clears_session_reference() {
    let mut store = Store::new();
    let issue_id = store
        .create_issue_checked(String::from("Session issue"), None, "medium", 100)
        .unwrap();
    let session_id = store.start_session(110).unwrap();
    store.set_session_issue(session_id, issue_id).unwrap();

    store.delete_issue_checked(issue_id).unwrap();

    let current = store.get_current_session().unwrap();
    assert_eq!(current.active_issue_id, None);
}
