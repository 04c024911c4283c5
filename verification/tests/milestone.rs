use chainlink::model::MilestoneStatus;
use chainlink::store::Store;

#[test]
fn test_create_milestone() {
    let mut store = Store::new();
    let result = store.create_milestone(String::from("v1.0"), None, 100);
    assert!(result.is_ok());
}

#[test]
fn test_create_milestone_with_description() {
    let mut store = Store::new();
    let result = store.create_milestone(String::from("v1.0"), Some(String::from("First release")), 100);
    assert!(result.is_ok());
}

#[test]
fn test_list_milestones_empty() {
    let store = Store::new();
    assert!(store.list_milestones().is_empty());
}

#[test]
fn test_list_milestones() {
    let mut store = Store::new();
    store.create_milestone(String::from("v1.0"), None, 100).unwrap();
    store.create_milestone(String::from("v2.0"), None, 101).unwrap();
    let milestones = store.list_milestones();
    assert_eq!(milestones.len(), 2);
    assert_eq!(milestones[0].name, "v1.0");
    assert_eq!(milestones[1].name, "v2.0");
}

#[test]
fn test_show_milestone() {
    let mut store = Store::new();
    let id = store
        .create_milestone(String::from("v1.0"), Some(String::from("Description")), 100)
        .unwrap();
    let m = store.get_milestone(id);
    assert!(m.is_some());
    assert_eq!(m.unwrap().description.as_deref(), Some("Description"));
}

#[test]
fn test_show_nonexistent_milestone() {
    let store = Store::new();
    assert!(store.get_milestone(99999).is_none());
}

#[test]
fn test_add_issue_to_milestone() {
    let mut store = Store::new();
    let milestone_id = store.create_milestone(String::from("v1.0"), None, 100).unwrap();
    let issue_id = store
        .create_issue_checked(String::from("Test issue"), None, "medium", 101)
        .unwrap();
    let result = store.add_issue_to_milestone(milestone_id, issue_id);
    assert!(result.is_ok());
    assert!(result.unwrap());
}

#[test]
fn test_add_to_nonexistent_milestone() {
    let mut store = Store::new();
    let issue_id = store
        .create_issue_checked(String::from("Test issue"), None, "medium", 100)
        .unwrap();
    let result = store.add_issue_to_milestone(99999, issue_id);
    assert!(result.is_err());
}

#[test]
fn test_remove_issue_from_milestone() {
    let mut store = Store::new();
    let milestone_id = store.create_milestone(String::from("v1.0"), None, 100).unwrap();
    let issue_id = store
        .create_issue_checked(String::from("Test issue"), None, "medium", 101)
        .unwrap();
    store.add_issue_to_milestone(milestone_id, issue_id).unwrap();
    let removed = store.remove_issue_from_milestone(milestone_id, issue_id);
    assert!(removed);
    assert!(store.get_milestone_issues(milestone_id).is_empty());
}

#[test]
fn test_close_milestone() {
    let mut store = Store::new();
    let id = store.create_milestone(String::from("v1.0"), None, 100).unwrap();
    assert!(store.close_milestone(id, 110));
    assert_eq!(store.get_milestone(id).unwrap().status, MilestoneStatus::Closed);
}

#[test]
fn test_delete_milestone() {
    let mut store = Store::new();
    let id = store.create_milestone(String::from("v1.0"), None, 100).unwrap();
    assert!(store.delete_milestone(id));
    assert!(store.get_milestone(id).is_none());
}

#[test]
fn test_milestone_progress() {
    let mut store = Store::new();
    let milestone_id = store.create_milestone(String::from("v1.0"), None, 100).unwrap();
    let issue1 = store
        .create_issue_checked(String::from("Issue 1"), None, "medium", 101)
        .unwrap();
    let issue2 = store
        .create_issue_checked(String::from("Issue 2"), None, "medium", 102)
        .unwrap();
    store.add_issue_to_milestone(milestone_id, issue1).unwrap();
    store.add_issue_to_milestone(milestone_id, issue2).unwrap();
    store.close_issue(issue1, 110);

    let issues = store.get_milestone_issues(milestone_id);
    let closed = Store::count_closed(&issues);
    assert_eq!(issues.len(), 2);
    assert_eq!(closed, 1);
}

#[test]
fn test_duplicate_membership_is_noop() {
    let mut store = Store::new();
    let milestone_id = store.create_milestone(String::from("v1.0"), None, 100).unwrap();
    let issue_id = store
        .create_issue_checked(String::from("Test issue"), None, "medium", 101)
        .unwrap();
    assert!(store.add_issue_to_milestone(milestone_id, issue_id).unwrap());
    assert!(!store.add_issue_to_milestone(milestone_id, issue_id).unwrap());
    assert_eq!(store.get_milestone_issues(milestone_id).len(), 1);
}
