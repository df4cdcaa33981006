use mac_notify::db::NotificationDb;
use mac_notify::focus::FocusModeDetector;
use mac_notify::llm::{AppPrompts, IgnoredApps};
use mac_notify::models::{AnalyzedNotification, FocusState, Notification, UrgencyLevel};
use mac_notify::orchestrator::{
    analyze_notifications_batch, analyze_single, GenerateOutcome, NotifyOrchestrator,
};

fn fresh_orchestrator(initial_rowid: i64) -> NotifyOrchestrator {
    NotifyOrchestrator::new(
        NotificationDb::new(String::from("/tmp/store.db")),
        FocusModeDetector::new(String::from("/tmp/assertions.json")),
        AppPrompts::new(String::from("/tmp/app_prompts.json")),
        IgnoredApps::new(String::from("/tmp/ignored.json")),
        initial_rowid,
    )
}

fn record(rowid: i64, bundle_id: &str, title: &str, timestamp: i64) -> Notification {
    Notification {
        rowid,
        title: String::from(title),
        body: String::from("body"),
        subtitle: String::from("sub"),
        bundle_id: String::from(bundle_id),
        timestamp,
    }
}

fn classified(
    id: i64,
    bundle_id: &str,
    app_name: &str,
    title: &str,
    urgency: UrgencyLevel,
    timestamp: i64,
) -> AnalyzedNotification {
    AnalyzedNotification {
        id,
        title: String::from(title),
        body: String::from("body"),
        subtitle: String::from("sub"),
        bundle_id: String::from(bundle_id),
        app_name: String::from(app_name),
        urgency,
        summary_line: String::from(title),
        reason: String::from("because"),
        timestamp,
    }
}

#[test]
fn cursor_advances_to_max_and_never_backward() {
    let mut orch = fresh_orchestrator(3);
    let batch = vec![record(5, "com.a", "t", 10), record(7, "com.a", "t", 11)];
    orch.poll_read_new(Some(batch), FocusState::Active);
    // a failed read leaves the cursor unchanged
    orch.poll_read_new(None, FocusState::Active);
    // records at or below the cursor never lower it
    let stale = vec![record(2, "com.a", "t", 12)];
    let r = orch.poll_read_new(Some(stale), FocusState::Active);
    // the stale record is still handed onward exactly once in this cycle
    assert_eq!(r.pending.len(), 1);
    let newer = vec![record(8, "com.a", "t", 13)];
    let r = orch.poll_read_new(Some(newer), FocusState::Active);
    assert_eq!(r.pending.len(), 1);
    assert_eq!(r.pending[0].0.rowid, 8);
}

#[test]
fn inactive_mode_drops_reads_but_consumes_them() {
    let mut orch = fresh_orchestrator(0);
    let batch = vec![record(1, "com.a", "t", 10), record(2, "com.b", "t", 11)];
    let r = orch.poll_read_new(Some(batch), FocusState::Inactive);
    assert!(r.pending.is_empty());
    assert!(!r.focus_ended);
    // nothing read under the Inactive mode ever reaches the store
    assert!(orch.notification_groups().is_empty());
    // the cursor advanced past the dropped records: a contract-respecting
    // source never returns them again
    let later = vec![record(3, "com.a", "t", 12)];
    let r = orch.poll_read_new(Some(later), FocusState::Active);
    assert_eq!(r.pending.len(), 1);
    assert_eq!(r.pending[0].0.rowid, 3);
}

#[test]
fn ignored_source_never_produces_a_classified_notification() {
    let mut orch = fresh_orchestrator(0);
    orch.add_ignored_app(String::from("com.spam.app"));
    let batch = vec![
        record(1, "com.spam.app", "buy now", 10),
        record(2, "com.real.app", "hello", 11),
    ];
    let r = orch.poll_read_new(Some(batch), FocusState::Active);
    // the ignored record is consumed but never enters the pipeline
    assert_eq!(r.pending.len(), 1);
    assert_eq!(r.pending[0].0.bundle_id, "com.real.app");
    let outcomes = vec![GenerateOutcome::Failed];
    let (results, _criticals) = analyze_notifications_batch(r.pending, &outcomes);
    let changed = orch.poll_store_results(results);
    assert!(changed);
    let groups = orch.notification_groups();
    assert_eq!(groups.len(), 1);
    assert_eq!(groups[0].bundle_id, "com.real.app");
    // consumed: a later contract-respecting read starts past it
    let r = orch.poll_read_new(Some(vec![record(3, "com.spam.app", "x", 12)]), FocusState::Active);
    assert_eq!(r.pending.len(), 0);
}

#[test]
fn pending_records_carry_their_source_context() {
    let mut orch = fresh_orchestrator(0);
    orch.set_app_prompt(String::from("com.a"), String::from("work chat"));
    let batch = vec![record(1, "com.a", "t", 10), record(2, "com.b", "t", 11)];
    let r = orch.poll_read_new(Some(batch), FocusState::Active);
    assert_eq!(r.pending.len(), 2);
    assert_eq!(r.pending[0].1.as_deref(), Some("work chat"));
    assert_eq!(r.pending[1].1, None);
}

#[test]
fn classification_always_usable_even_on_failure() {
    let n = record(1, "com.a", "Invoice", 10);
    for outcome in [
        GenerateOutcome::Unavailable,
        GenerateOutcome::Failed,
        GenerateOutcome::Responded(String::from("total garbage")),
        GenerateOutcome::Responded(String::from(
            "{\"urgency_level\":\"low\",\"summary_line\":\"s\",\"reason\":\"r\"}",
        )),
    ] {
        let a = analyze_single(&n, &outcome);
        assert!(!a.summary_line.is_empty());
        assert!(matches!(
            a.urgency,
            UrgencyLevel::Critical | UrgencyLevel::High | UrgencyLevel::Medium | UrgencyLevel::Low
        ));
    }
    let a = analyze_single(&n, &GenerateOutcome::Failed);
    assert_eq!(a.urgency, UrgencyLevel::Medium);
    assert_eq!(a.summary_line, "Invoice");
}

#[test]
fn criticals_follow_read_order() {
    let pending = vec![
        (record(1, "com.a", "first", 10), None),
        (record(2, "com.b", "second", 11), None),
        (record(3, "com.c", "third", 12), None),
    ];
    let crit = String::from("{\"urgency_level\":\"critical\",\"summary_line\":\"s\",\"reason\":\"r\"}");
    let outcomes = vec![
        GenerateOutcome::Responded(crit.clone()),
        GenerateOutcome::Failed,
        GenerateOutcome::Responded(crit),
    ];
    let (results, criticals) = analyze_notifications_batch(pending, &outcomes);
    assert_eq!(results.len(), 3);
    assert_eq!(criticals.len(), 2);
    assert_eq!(criticals[0].id, 1);
    assert_eq!(criticals[1].id, 3);
    assert_eq!(results[1].urgency, UrgencyLevel::Medium);
}

#[test]
fn mode_end_signal_fires_once_with_count() {
    let mut orch = fresh_orchestrator(0);
    orch.poll_read_new(Some(vec![]), FocusState::Active);
    let stored = vec![
        classified(1, "com.a", "a", "x", UrgencyLevel::Low, 10),
        classified(2, "com.a", "a", "y", UrgencyLevel::Low, 11),
        classified(3, "com.b", "b", "z", UrgencyLevel::Low, 12),
    ];
    orch.poll_store_results(stored);
    let r = orch.poll_read_new(Some(vec![]), FocusState::Inactive);
    assert!(r.focus_ended);
    assert_eq!(orch.on_focus_ended(), 3);
    // a further Inactive cycle does not refire the signal
    let r = orch.poll_read_new(Some(vec![]), FocusState::Inactive);
    assert!(!r.focus_ended);
}

#[test]
fn grouped_view_groups_and_counts() {
    let mut orch = fresh_orchestrator(0);
    let stored = vec![
        classified(1, "com.app.mail", "mail", "Invoice", UrgencyLevel::High, 100),
        classified(2, "com.app.mail", "mail", "Invoice", UrgencyLevel::High, 200),
        classified(3, "com.app.chat", "chat", "ping", UrgencyLevel::Low, 150),
    ];
    orch.poll_store_results(stored);
    let groups = orch.notification_groups();
    assert_eq!(groups.len(), 2);
    // the mail group holds the newest entry, so it is presented first
    assert_eq!(groups[0].bundle_id, "com.app.mail");
    assert_eq!(groups[0].app_name, "mail");
    assert_eq!(groups[0].notifications.len(), 2);
    // within the group the newest entry comes first
    assert_eq!(groups[0].notifications[0].id, 2);
    assert_eq!(groups[0].notifications[1].id, 1);
    assert_eq!(groups[1].bundle_id, "com.app.chat");
    assert_eq!(groups[1].notifications.len(), 1);
    let counts = orch.urgency_counts();
    assert_eq!(counts, [0, 2, 0, 1]);
}

#[test]
fn grouped_view_is_stable_between_calls() {
    let mut orch = fresh_orchestrator(0);
    orch.inject_dummy_notifications(8, 1_000_000);
    let first = orch.notification_groups();
    let second = orch.notification_groups();
    assert_eq!(first.len(), second.len());
    for (a, b) in first.iter().zip(second.iter()) {
        assert_eq!(a.bundle_id, b.bundle_id);
        assert_eq!(a.app_name, b.app_name);
        assert_eq!(a.notifications.len(), b.notifications.len());
        for (x, y) in a.notifications.iter().zip(b.notifications.iter()) {
            assert_eq!(x.id, y.id);
            assert_eq!(x.summary_line, y.summary_line);
            assert_eq!(x.timestamp, y.timestamp);
        }
    }
}

#[test]
fn group_order_breaks_timestamp_ties_by_key() {
    let mut orch = fresh_orchestrator(0);
    let stored = vec![
        classified(1, "com.b.app", "b", "x", UrgencyLevel::Low, 100),
        classified(2, "com.a.app", "a", "y", UrgencyLevel::Low, 100),
    ];
    orch.poll_store_results(stored);
    let groups = orch.notification_groups();
    assert_eq!(groups.len(), 2);
    assert_eq!(groups[0].bundle_id, "com.a.app");
    assert_eq!(groups[1].bundle_id, "com.b.app");
}

#[test]
fn clear_all_empties_view_and_counts() {
    let mut orch = fresh_orchestrator(0);
    let stored = vec![
        classified(1, "com.a", "a", "x", UrgencyLevel::Critical, 10),
        classified(2, "com.b", "b", "y", UrgencyLevel::Low, 11),
    ];
    orch.poll_store_results(stored);
    assert_eq!(orch.clear_all(), 2);
    assert!(orch.notification_groups().is_empty());
    assert_eq!(orch.urgency_counts(), [0, 0, 0, 0]);
    assert_eq!(orch.clear_all(), 0);
}

#[test]
fn clear_one_and_clear_by_app() {
    let mut orch = fresh_orchestrator(0);
    let stored = vec![
        classified(1, "com.a", "a", "x", UrgencyLevel::Low, 10),
        classified(2, "com.a", "a", "y", UrgencyLevel::Low, 11),
        classified(3, "com.b", "b", "z", UrgencyLevel::Low, 12),
    ];
    orch.poll_store_results(stored);
    assert!(orch.clear_notification(2));
    assert!(!orch.clear_notification(2));
    assert_eq!(orch.clear_app_notifications("com.a"), 1);
    assert_eq!(orch.clear_app_notifications("com.a"), 0);
    let groups = orch.notification_groups();
    assert_eq!(groups.len(), 1);
    assert_eq!(groups[0].bundle_id, "com.b");
}

#[test]
fn injected_entries_use_fresh_negative_ids() {
    let mut orch = fresh_orchestrator(0);
    assert_eq!(orch.inject_dummy_notifications(3, 1_000_000), 3);
    assert_eq!(orch.inject_dummy_notifications(2, 1_000_000), 2);
    let groups = orch.notification_groups();
    let mut ids: Vec<i64> = groups
        .iter()
        .flat_map(|g| g.notifications.iter().map(|n| n.id))
        .collect();
    assert_eq!(ids.len(), 5);
    ids.sort();
    ids.dedup();
    assert_eq!(ids.len(), 5);
    assert!(ids.iter().all(|id| *id < 0));
}

#[test]
fn orchestrator_config_delegation() {
    let mut orch = fresh_orchestrator(0);
    orch.set_app_prompt(String::from("com.a"), String::from("ctx"));
    assert_eq!(orch.list_app_prompts(), vec![(String::from("com.a"), String::from("ctx"))]);
    assert!(orch.delete_app_prompt("com.a"));
    assert!(!orch.delete_app_prompt("com.a"));
    orch.add_ignored_app(String::from("com.b"));
    assert_eq!(orch.list_ignored_apps(), vec![String::from("com.b")]);
    assert!(orch.remove_ignored_app("com.b"));
    assert!(!orch.remove_ignored_app("com.b"));
}
