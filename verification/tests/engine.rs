use chainlink::errors::{ErrorKind, StoreError};
use chainlink::model::{
    determine_changelog_category, priority_weight, status_icon, validate_priority, Status,
};
use chainlink::next::Recommendation;
use chainlink::store::Store;
use chainlink::text::{dec_string, truncate};

#[test]
fn close_then_reopen_restores_open_state() {
    let mut store = Store::new();
    let id = store
        .create_issue_checked(String::from("Cycle"), None, "medium", 100)
        .unwrap();
    assert!(store.close_issue(id, 110));
    assert_eq!(store.get_issue(id).unwrap().status, Status::Closed);
    assert_eq!(store.get_issue(id).unwrap().closed_at, Some(110));

    assert!(store.reopen_issue(id, 120));
    let issue = store.get_issue(id).unwrap();
    assert_eq!(issue.status, Status::Open);
    assert_eq!(issue.closed_at, None);
}

#[test]
fn reopen_not_possible_from_archived() {
    let mut store = Store::new();
    let id = store
        .create_issue_checked(String::from("Frozen"), None, "medium", 100)
        .unwrap();
    store.close_issue(id, 110);
    store.archive_issue(id, 120).unwrap();

    assert!(!store.reopen_issue(id, 130));
    assert_eq!(store.get_issue(id).unwrap().status, Status::Archived);
}

#[test]
fn delete_removes_issue_and_all_references() {
    let mut store = Store::new();
    let parent = store
        .create_issue_checked(String::from("Parent"), None, "high", 100)
        .unwrap();
    let child = store
        .create_subissue_checked(parent, String::from("Child"), None, "medium", 101)
        .unwrap();
    let other = store
        .create_issue_checked(String::from("Other"), None, "low", 102)
        .unwrap();
    store.add_label(child, String::from("bug")).unwrap();
    store.add_comment(child, String::from("Note"), 103).unwrap();
    store.add_dependency(other, child).unwrap();
    let milestone = store.create_milestone(String::from("v1.0"), None, 104).unwrap();
    store.add_issue_to_milestone(milestone, child).unwrap();

    assert!(store.delete_issue(parent));

    assert!(store.get_issue(parent).is_none());
    assert!(store.get_issue(child).is_none());
    assert!(store.list_issues(Some("all"), None, None).iter().all(|i| i.id == other));
    assert!(store.get_labels(child).is_empty());
    assert!(store.get_comments(child).is_empty());
    assert!(store.get_blockers(other).is_empty());
    assert!(store.get_milestone_issues(milestone).is_empty());
}

#[test]
fn duplicate_dependency_is_single_edge_and_self_block_fails() {
    let mut store = Store::new();
    let a = store
        .create_issue_checked(String::from("A"), None, "medium", 100)
        .unwrap();
    let b = store
        .create_issue_checked(String::from("B"), None, "medium", 101)
        .unwrap();

    assert!(store.add_dependency(b, a).unwrap());
    assert!(!store.add_dependency(b, a).unwrap());
    assert_eq!(store.get_blockers(b).len(), 1);

    let err = store.add_dependency(a, a).unwrap_err();
    assert_eq!(err.kind(), ErrorKind::InvalidArgument);
    assert!(matches!(err, StoreError::SelfBlocking));
}

#[test]
fn ready_set_tracks_open_blockers() {
    let mut store = Store::new();
    let blocker = store
        .create_issue_checked(String::from("Blocker"), None, "medium", 100)
        .unwrap();
    let blocked = store
        .create_issue_checked(String::from("Blocked"), None, "medium", 101)
        .unwrap();
    store.add_dependency(blocked, blocker).unwrap();

    let ready: Vec<u64> = store.list_ready_issues().iter().map(|i| i.id).collect();
    assert!(ready.contains(&blocker));
    assert!(!ready.contains(&blocked));

    let blocked_set: Vec<u64> = store.list_blocked_issues().iter().map(|i| i.id).collect();
    assert_eq!(blocked_set, vec![blocked]);

    store.close_issue(blocker, 110);
    let ready: Vec<u64> = store.list_ready_issues().iter().map(|i| i.id).collect();
    assert!(ready.contains(&blocked));
}

#[test]
fn single_active_timer_store_wide() {
    let mut store = Store::new();
    let one = store
        .create_issue_checked(String::from("One"), None, "medium", 100)
        .unwrap();
    let two = store
        .create_issue_checked(String::from("Two"), None, "medium", 101)
        .unwrap();

    store.start_timer(one, 110).unwrap();
    let err = store.start_timer(two, 111).unwrap_err();
    assert!(matches!(err, StoreError::TimerRunningOther { active } if active == one));
    assert!(err.message().contains(&format!("#{}", one)));

    let again = store.start_timer(one, 112).unwrap_err();
    assert!(matches!(again, StoreError::TimerAlreadyRunning { id } if id == one));
}

// Scenario A: a high-priority and a low-priority issue, no blockers: the
// high one is recommended.
#[test]
fn next_recommends_highest_priority() {
    let mut store = Store::new();
    let a = store
        .create_issue_checked(String::from("A"), None, "high", 100)
        .unwrap();
    let _b = store
        .create_issue_checked(String::from("B"), None, "low", 101)
        .unwrap();

    match store.recommend_next() {
        Recommendation::Ranked { top, runners_up } => {
            assert_eq!(top.id, a);
            assert_eq!(runners_up.len(), 1);
        },
        other => panic!("expected a ranked recommendation, got {:?}", other),
    }
}

// Scenario B: C blocked by A is excluded from the ready set until A is
// closed.
#[test]
fn blocked_issue_becomes_ready_when_blocker_closes() {
    let mut store = Store::new();
    let a = store
        .create_issue_checked(String::from("A"), None, "high", 100)
        .unwrap();
    let c = store
        .create_issue_checked(String::from("C"), None, "medium", 101)
        .unwrap();
    store.add_dependency(c, a).unwrap();

    let ready: Vec<u64> = store.list_ready_issues().iter().map(|i| i.id).collect();
    assert!(!ready.contains(&c));

    store.close_issue(a, 110);
    let ready: Vec<u64> = store.list_ready_issues().iter().map(|i| i.id).collect();
    assert!(ready.contains(&c));
}

// Scenario C: deleting a parent deletes both subissues.
#[test]
fn deleting_parent_deletes_both_subissues() {
    let mut store = Store::new();
    let p = store
        .create_issue_checked(String::from("P"), None, "medium", 100)
        .unwrap();
    let s1 = store
        .create_subissue_checked(p, String::from("S1"), None, "medium", 101)
        .unwrap();
    let s2 = store
        .create_subissue_checked(p, String::from("S2"), None, "medium", 102)
        .unwrap();

    store.delete_issue_checked(p).unwrap();

    assert!(store.get_issue(s1).is_none());
    assert!(store.get_issue(s2).is_none());
}

// Scenario D: a second start names the running issue; stop returns a
// nonnegative elapsed time.
#[test]
fn second_start_names_active_issue_and_stop_succeeds() {
    let mut store = Store::new();
    let one = store
        .create_issue_checked(String::from("First"), None, "medium", 100)
        .unwrap();
    let two = store
        .create_issue_checked(String::from("Second"), None, "medium", 101)
        .unwrap();

    store.start_timer(one, 1000).unwrap();
    let err = store.start_timer(two, 1001).unwrap_err();
    assert!(err.message().contains("#1"));

    let (issue, elapsed, total) = store.stop_timer(1042).unwrap();
    assert_eq!(issue, one);
    assert_eq!(elapsed, 42);
    assert_eq!(total, 42);
    assert!(store.get_active_timer().is_none());
}

#[test]
fn total_time_accumulates_over_entries() {
    let mut store = Store::new();
    let id = store
        .create_issue_checked(String::from("Tracked"), None, "medium", 100)
        .unwrap();
    store.start_timer(id, 1000).unwrap();
    store.stop_timer(1010).unwrap();
    store.start_timer(id, 2000).unwrap();
    let (_, elapsed, total) = store.stop_timer(2005).unwrap();
    assert_eq!(elapsed, 5);
    assert_eq!(total, 15);
    assert_eq!(store.get_total_time(id), 15);
}

#[test]
fn stop_without_timer_fails() {
    let mut store = Store::new();
    let err = store.stop_timer(1000).unwrap_err();
    assert!(matches!(err, StoreError::TimerNotRunning));
    assert!(err.message().contains("No timer running"));
}

#[test]
fn timer_status_reports_elapsed() {
    let mut store = Store::new();
    let id = store
        .create_issue_checked(String::from("Watched"), None, "medium", 100)
        .unwrap();
    assert!(store.timer_status(500).is_none());
    store.start_timer(id, 1000).unwrap();
    assert_eq!(store.timer_status(1030), Some((id, 30)));
}

#[test]
fn sessions_most_recent_open_wins() {
    let mut store = Store::new();
    assert!(store.get_current_session().is_none());
    let s1 = store.start_session(100).unwrap();
    let s2 = store.start_session(200).unwrap();
    assert_eq!(store.get_current_session().unwrap().id, s2);

    assert!(store.end_session(s2, Some(String::from("done for today")), 300));
    assert_eq!(store.get_current_session().unwrap().id, s1);
    let last = store.get_last_session().unwrap();
    assert_eq!(last.id, s2);
    assert_eq!(last.handoff_notes.as_deref(), Some("done for today"));
}

#[test]
fn subissue_requires_parent() {
    let mut store = Store::new();
    let err = store
        .create_subissue_checked(42, String::from("Orphan"), None, "medium", 100)
        .unwrap_err();
    assert!(err.message().contains("Parent issue #42 not found"));
}

#[test]
fn create_rejects_invalid_priority() {
    let mut store = Store::new();
    let err = store
        .create_issue_checked(String::from("Nope"), None, "urgent", 100)
        .unwrap_err();
    assert!(err.message().contains("Invalid priority 'urgent'"));
    assert!(store.list_issues(Some("all"), None, None).is_empty());
}

#[test]
fn list_filters_combine() {
    let mut store = Store::new();
    let a = store
        .create_issue_checked(String::from("A"), None, "high", 100)
        .unwrap();
    let b = store
        .create_issue_checked(String::from("B"), None, "low", 101)
        .unwrap();
    store.add_label(a, String::from("bug")).unwrap();
    store.close_issue(b, 110);

    let open_high = store.list_issues(Some("open"), None, Some("high"));
    assert_eq!(open_high.len(), 1);
    assert_eq!(open_high[0].id, a);

    let labelled = store.list_issues(Some("all"), Some("bug"), None);
    assert_eq!(labelled.len(), 1);

    let unknown_status = store.list_issues(Some("weird"), None, None);
    assert!(unknown_status.is_empty());

    let all = store.list_issues(Some("all"), None, None);
    assert_eq!(all.len(), 2);
    assert_eq!(all[0].id, b, "newest first");
}

#[test]
fn labels_listed_sorted_ascending() {
    let mut store = Store::new();
    let id = store
        .create_issue_checked(String::from("Tagged"), None, "medium", 100)
        .unwrap();
    store.add_label(id, String::from("b")).unwrap();
    store.add_label(id, String::from("a")).unwrap();
    store.add_label(id, String::from("urgent")).unwrap();
    store.add_label(id, String::from("bug")).unwrap();
    assert_eq!(
        store.get_labels(id),
        vec![
            String::from("a"),
            String::from("b"),
            String::from("bug"),
            String::from("urgent")
        ]
    );
}

#[test]
fn audit_accepts_built_store_and_rejects_corrupt_one() {
    let mut store = Store::new();
    let id = store
        .create_issue_checked(String::from("Sound"), None, "medium", 100)
        .unwrap();
    store.add_label(id, String::from("bug")).unwrap();
    store.start_timer(id, 110).unwrap();
    assert!(store.check_wf());

    // A dangling label row, as a hand-edited storage file could hold.
    let mut corrupt = Store::new();
    corrupt.labels.push(chainlink::model::Label {
        issue_id: 42,
        name: String::from("ghost"),
    });
    assert!(!corrupt.check_wf());

    // A duplicated issue id.
    let mut duped = Store::new();
    let a = duped
        .create_issue_checked(String::from("A"), None, "medium", 100)
        .unwrap();
    let copy = duped.get_issue(a).unwrap().duplicate();
    duped.issues.push(copy);
    assert!(!duped.check_wf());
}

#[test]
fn labels_are_unique_pairs() {
    let mut store = Store::new();
    let id = store
        .create_issue_checked(String::from("Tagged"), None, "medium", 100)
        .unwrap();
    assert!(store.add_label(id, String::from("bug")).unwrap());
    assert!(!store.add_label(id, String::from("bug")).unwrap());
    assert_eq!(store.get_labels(id), vec![String::from("bug")]);
    assert!(store.remove_label(id, "bug"));
    assert!(!store.remove_label(id, "bug"));
}

#[test]
fn comments_keep_creation_order() {
    let mut store = Store::new();
    let id = store
        .create_issue_checked(String::from("Discussed"), None, "medium", 100)
        .unwrap();
    store.add_comment(id, String::from("first"), 101).unwrap();
    store.add_comment(id, String::from("second"), 102).unwrap();
    let comments = store.get_comments(id);
    assert_eq!(comments.len(), 2);
    assert_eq!(comments[0].content, "first");
    assert_eq!(comments[1].content, "second");
}

#[test]
fn next_progress_bonus_prefers_started_parent() {
    let mut store = Store::new();
    let started = store
        .create_issue_checked(String::from("Started"), None, "medium", 100)
        .unwrap();
    let fresh = store
        .create_issue_checked(String::from("Fresh"), None, "medium", 101)
        .unwrap();
    let done = store
        .create_subissue_checked(started, String::from("Done part"), None, "medium", 102)
        .unwrap();
    let _todo = store
        .create_subissue_checked(started, String::from("Open part"), None, "medium", 103)
        .unwrap();
    store.close_issue(done, 110);

    assert_eq!(store.calculate_progress(started), Some((1, 2)));
    assert_eq!(store.calculate_progress(fresh), None);

    match store.recommend_next() {
        Recommendation::Ranked { top, .. } => assert_eq!(top.id, started),
        other => panic!("expected a ranked recommendation, got {:?}", other),
    }
}

#[test]
fn next_falls_back_to_subissue() {
    let mut store = Store::new();
    let parent = store
        .create_issue_checked(String::from("Parent"), None, "medium", 100)
        .unwrap();
    let child = store
        .create_subissue_checked(parent, String::from("Child"), None, "medium", 101)
        .unwrap();
    store.close_issue(parent, 110);

    match store.recommend_next() {
        Recommendation::Subissue(iss) => assert_eq!(iss.id, child),
        other => panic!("expected the subissue fallback, got {:?}", other),
    }
}

#[test]
fn next_with_empty_store_recommends_nothing() {
    let store = Store::new();
    assert!(matches!(store.recommend_next(), Recommendation::Nothing));
}

#[test]
fn subissues_listed_ascending() {
    let mut store = Store::new();
    let parent = store
        .create_issue_checked(String::from("Parent"), None, "medium", 100)
        .unwrap();
    let c1 = store
        .create_subissue_checked(parent, String::from("C1"), None, "medium", 101)
        .unwrap();
    let c2 = store
        .create_subissue_checked(parent, String::from("C2"), None, "medium", 102)
        .unwrap();
    let subs: Vec<u64> = store.get_subissues(parent).iter().map(|i| i.id).collect();
    assert_eq!(subs, vec![c1, c2]);
}

#[test]
fn validate_priority_is_a_strict_whitelist() {
    assert!(validate_priority("low"));
    assert!(validate_priority("medium"));
    assert!(validate_priority("high"));
    assert!(validate_priority("critical"));
    assert!(!validate_priority("Medium"));
    assert!(!validate_priority(" medium"));
    assert!(!validate_priority("urgent"));
    assert!(!validate_priority(""));
}

#[test]
fn priority_weight_orders_the_whitelist() {
    assert_eq!(priority_weight("critical"), 4);
    assert_eq!(priority_weight("high"), 3);
    assert_eq!(priority_weight("medium"), 2);
    assert_eq!(priority_weight("low"), 1);
    assert_eq!(priority_weight("unknown"), 0);
}

#[test]
fn status_icon_marks_statuses() {
    assert_eq!(status_icon("open"), " ");
    assert_eq!(status_icon("closed"), "x");
    assert_eq!(status_icon("archived"), "?");
}

#[test]
fn changelog_category_from_labels() {
    assert_eq!(determine_changelog_category(&vec![String::from("bug")]), "Fixed");
    assert_eq!(determine_changelog_category(&vec![String::from("BUG")]), "Fixed");
    assert_eq!(
        determine_changelog_category(&vec![String::from("docs"), String::from("Feature")]),
        "Added"
    );
    assert_eq!(determine_changelog_category(&vec![String::from("security")]), "Security");
    assert_eq!(determine_changelog_category(&vec![]), "Changed");
}

#[test]
fn truncate_cuts_on_character_boundaries() {
    assert_eq!(truncate("short", 40), "short");
    assert_eq!(truncate("abcdefghij", 8), "abcde...");
    assert_eq!(truncate("\u{65e5}\u{672c}\u{8a9e}\u{306e}\u{9577}\u{3044}", 5), "\u{65e5}\u{672c}...");
    assert_eq!(truncate("abc", 3), "abc");
}

#[test]
fn dec_string_renders_decimal() {
    assert_eq!(dec_string(0), "0");
    assert_eq!(dec_string(7), "7");
    assert_eq!(dec_string(1234567890), "1234567890");
    assert_eq!(dec_string(u64::MAX), "18446744073709551615");
}

#[test]
fn error_messages_name_their_subject() {
    let e = StoreError::IssueNotFound { id: 57 };
    assert_eq!(e.message(), "Issue #57 not found");
    assert_eq!(e.kind(), ErrorKind::NotFound);
    let t = StoreError::TimerRunningOther { active: 3 };
    assert_eq!(
        t.message(),
        "Timer already running for issue #3. Stop it first with 'chainlink stop'."
    );
    assert_eq!(t.kind(), ErrorKind::Conflict);
}

#[test]
fn split_duration_breaks_into_h_m_s() {
    assert_eq!(Store::split_duration(3725), (1, 2, 5));
    assert_eq!(Store::split_duration(59), (0, 0, 59));
}
