use chainlink::model::Status;
use chainlink::store::Store;

fn store_with_issue() -> (Store, u64) {
    let mut store = Store::new();
    let id = store
        .create_issue_checked(String::from("Test issue"), None, "medium", 100)
        .unwrap();
    (store, id)
}

#[test]
fn test_archive_closed_issue() {
    let (mut store, id) = store_with_issue();
    assert!(store.close_issue(id, 110));

    let result = store.archive_issue(id, 120);
    assert!(result.is_ok());
}

#[test]
fn test_archive_open_issue_fails() {
    let (mut store, id) = store_with_issue();

    let result = store.archive_issue(id, 120);
    assert!(result.is_err());
    assert!(result.unwrap_err().message().contains("only archive closed"));
}

#[test]
fn test_archive_nonexistent_fails() {
    let mut store = Store::new();

    let result = store.archive_issue(99999, 120);
    assert!(result.is_err());
    assert!(result.unwrap_err().message().contains("not found"));
}

#[test]
fn test_unarchive_issue() {
    let (mut store, id) = store_with_issue();
    store.close_issue(id, 110);
    store.archive_issue(id, 120).unwrap();

    let result = store.unarchive_issue(id, 130);
    assert!(result.is_ok());
    assert_eq!(store.get_issue(id).unwrap().status, Status::Closed);
}

#[test]
fn test_unarchive_not_archived() {
    let (mut store, id) = store_with_issue();

    let result = store.unarchive_issue(id, 130);
    assert!(result.is_err());
}

#[test]
fn test_list_empty() {
    let store = Store::new();

    let archived = store.list_archived_issues();
    assert!(archived.is_empty());
}

#[test]
fn test_list_with_archived() {
    let (mut store, id) = store_with_issue();
    store.close_issue(id, 110);
    store.archive_issue(id, 120).unwrap();

    let archived = store.list_archived_issues();
    assert_eq!(archived.len(), 1);
    assert_eq!(archived[0].id, id);
}

#[test]
fn test_archive_older_none() {
    let mut store = Store::new();

    let count = store.archive_older_than(30, 1000);
    assert_eq!(count, 0);
}

#[test]
fn test_archive_unarchive_roundtrip() {
    let (mut store, id) = store_with_issue();
    store.close_issue(id, 110);

    store.archive_issue(id, 120).unwrap();
    let archived = store.list_archived_issues();
    assert!(archived.iter().any(|i| i.id == id));

    store.unarchive_issue(id, 130).unwrap();
    let archived = store.list_archived_issues();
    assert!(!archived.iter().any(|i| i.id == id));
}

#[test]
fn test_archived_issue_not_in_open_or_closed_list() {
    let (mut store, id) = store_with_issue();
    store.close_issue(id, 110);
    store.archive_issue(id, 120).unwrap();

    let open_issues = store.list_issues(Some("open"), None, None);
    let closed_issues = store.list_issues(Some("closed"), None, None);
    assert!(!open_issues.iter().any(|i| i.id == id));
    assert!(!closed_issues.iter().any(|i| i.id == id));
}

#[test]
fn test_archive_older_cutoff() {
    let mut store = Store::new();
    let old_issue = store
        .create_issue_checked(String::from("Old"), None, "medium", 0)
        .unwrap();
    let fresh = store
        .create_issue_checked(String::from("Fresh"), None, "medium", 0)
        .unwrap();
    store.close_issue(old_issue, 100);
    store.close_issue(fresh, 3_000_000);

    // Two days of margin: only the entry closed at 100 is older.
    let count = store.archive_older_than(30, 3_000_000 + 30 * 86400);
    assert_eq!(count, 1);
    assert_eq!(store.get_issue(old_issue).unwrap().status, Status::Archived);
    assert_eq!(store.get_issue(fresh).unwrap().status, Status::Closed);
}
