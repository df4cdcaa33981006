use mac_notify::db::{parse_notification_plist, NotificationDb, SchemaKind};
use mac_notify::focus::FocusModeDetector;
use mac_notify::llm::{
    build_analysis_prompt, default_summary_line, fallback_analysis, gemini_text_from_body,
    parse_analysis_response, response_text_from_body, strip_thinking_tags, AppPrompts,
    IgnoredApps,
};
use mac_notify::models::{FocusState, Notification, UrgencyLevel};
use mac_notify::orchestrator::app_name_from_bundle;

fn sample_notification() -> Notification {
    Notification {
        rowid: 7,
        title: String::from("Invoice due"),
        body: String::from("Pay by Friday"),
        subtitle: String::from("Billing"),
        bundle_id: String::from("com.app.mail"),
        timestamp: 1000,
    }
}

#[test]
fn urgency_labels_and_colors() {
    assert_eq!(UrgencyLevel::Critical.label(), "URGENT");
    assert_eq!(UrgencyLevel::High.label(), "HIGH");
    assert_eq!(UrgencyLevel::Medium.label(), "NORMAL");
    assert_eq!(UrgencyLevel::Low.label(), "LOW");
    assert_eq!(UrgencyLevel::Critical.color(), "#ef4444");
    assert_eq!(UrgencyLevel::High.color(), "#f97316");
    assert_eq!(UrgencyLevel::Medium.color(), "#f59e0b");
    assert_eq!(UrgencyLevel::Low.color(), "#22c55e");
}

#[test]
fn app_name_takes_last_segment() {
    assert_eq!(app_name_from_bundle("com.apple.mobilemail"), "mobilemail");
    assert_eq!(app_name_from_bundle("plain"), "plain");
    assert_eq!(app_name_from_bundle("trailing.dot."), "trailing.dot.");
    assert_eq!(app_name_from_bundle(""), "");
}

#[test]
fn plist_decoding_primary_keys() {
    let xml = b"<?xml version=\"1.0\" encoding=\"UTF-8\"?>\n<plist version=\"1.0\"><dict>\
<key>titl</key><string>Hello</string>\
<key>body</key><string>World</string>\
<key>subt</key><string>Sub</string>\
</dict></plist>";
    let parsed = parse_notification_plist(xml);
    assert_eq!(parsed.title, "Hello");
    assert_eq!(parsed.body, "World");
    assert_eq!(parsed.subtitle, "Sub");
}

#[test]
fn plist_decoding_nested_fallback() {
    let xml = b"<?xml version=\"1.0\" encoding=\"UTF-8\"?>\n<plist version=\"1.0\"><dict>\
<key>req</key><dict>\
<key>titl</key><string>Nested title</string>\
<key>body</key><string>Nested body</string>\
</dict></dict></plist>";
    let parsed = parse_notification_plist(xml);
    assert_eq!(parsed.title, "Nested title");
    assert_eq!(parsed.body, "Nested body");
    assert_eq!(parsed.subtitle, "");
}

#[test]
fn plist_decoding_prefers_primary_over_nested() {
    let xml = b"<?xml version=\"1.0\" encoding=\"UTF-8\"?>\n<plist version=\"1.0\"><dict>\
<key>titl</key><string>Top</string>\
<key>req</key><dict><key>titl</key><string>Nested</string></dict>\
</dict></plist>";
    let parsed = parse_notification_plist(xml);
    assert_eq!(parsed.title, "Top");
}

#[test]
fn plist_decoding_is_total_on_garbage() {
    let parsed = parse_notification_plist(b"\x00\x01definitely not a plist");
    assert_eq!(parsed.title, "");
    assert_eq!(parsed.body, "");
    assert_eq!(parsed.subtitle, "");
}

#[test]
fn schema_detection_memoizes_first_success() {
    let mut db = NotificationDb::new(String::from("/tmp/nowhere"));
    assert_eq!(db.resolve_query(false, true), Some(SchemaKind::Record));
    // a later cycle that would accept the other layout keeps the memoized one
    assert_eq!(db.resolve_query(true, false), Some(SchemaKind::Record));
}

#[test]
fn schema_detection_priority_and_failure() {
    let mut db = NotificationDb::new(String::from("/tmp/nowhere"));
    assert_eq!(db.resolve_query(false, false), None);
    // an undetectable schema is retried, and the priority order favors Z
    assert_eq!(db.resolve_query(true, true), Some(SchemaKind::Z));
}

#[test]
fn focus_state_fails_safe_to_inactive() {
    let det = FocusModeDetector::new(String::from("/tmp/assertions.json"));
    assert_eq!(det.state_from_text(None), FocusState::Inactive);
    assert_eq!(det.state_from_text(Some("not json at all")), FocusState::Inactive);
    assert_eq!(det.state_from_text(Some("{\"data\": 5}")), FocusState::Inactive);
    assert_eq!(det.state_from_text(Some("{\"data\": []}")), FocusState::Inactive);
}

#[test]
fn focus_state_active_on_live_assertion() {
    let det = FocusModeDetector::new(String::from("/tmp/assertions.json"));
    let live = "{\"data\": [{\"storeAssertionRecords\": [{\"a\": 1}]}]}";
    assert_eq!(det.state_from_text(Some(live)), FocusState::Active);
    let null_only = "{\"data\": [{\"storeAssertionRecords\": null}]}";
    assert_eq!(det.state_from_text(Some(null_only)), FocusState::Inactive);
    let false_only = "{\"data\": [{\"storeAssertionRecords\": false}]}";
    assert_eq!(det.state_from_text(Some(false_only)), FocusState::Inactive);
    let mixed = "{\"data\": [{\"storeAssertionRecords\": null}, {\"storeAssertionRecords\": true}]}";
    assert_eq!(det.state_from_text(Some(mixed)), FocusState::Active);
    let missing_field = "{\"data\": [{\"other\": 1}]}";
    assert_eq!(det.state_from_text(Some(missing_field)), FocusState::Inactive);
}

#[test]
fn parse_analysis_ignores_surrounding_noise() {
    let n = sample_notification();
    let text = "noise {\"urgency_level\":\"critical\",\"summary_line\":\"x\",\"reason\":\"y\"} trailing";
    let parsed = parse_analysis_response(text, &n).expect("should parse");
    assert_eq!(parsed.urgency, UrgencyLevel::Critical);
    assert_eq!(parsed.summary_line, "x");
    assert_eq!(parsed.reason, "y");
}

#[test]
fn parse_analysis_rejects_bad_input() {
    let n = sample_notification();
    assert!(parse_analysis_response("no braces here", &n).is_none());
    assert!(parse_analysis_response("} backwards {", &n).is_none());
    assert!(parse_analysis_response("{\"urgency_level\":\"urgent\"}", &n).is_none());
    assert!(parse_analysis_response("{\"summary_line\":\"x\"}", &n).is_none());
    assert!(parse_analysis_response("{not valid json}", &n).is_none());
}

#[test]
fn parse_analysis_falls_back_per_field() {
    let n = sample_notification();
    let parsed = parse_analysis_response("{\"urgency_level\":\"low\"}", &n).expect("parses");
    assert_eq!(parsed.urgency, UrgencyLevel::Low);
    // the missing summary falls back to the first non-empty field, the title
    assert_eq!(parsed.summary_line, "Invoice due");
    assert_eq!(parsed.reason, "判定理由は取得できませんでした。");
    let blank = "{\"urgency_level\":\"high\",\"summary_line\":\"   \",\"reason\":\"\"}";
    let parsed = parse_analysis_response(blank, &n).expect("parses");
    assert_eq!(parsed.urgency, UrgencyLevel::High);
    assert_eq!(parsed.summary_line, "Invoice due");
    assert_eq!(parsed.reason, "判定理由は取得できませんでした。");
}

#[test]
fn default_summary_prefers_title_then_body_then_subtitle() {
    let mut n = sample_notification();
    assert_eq!(default_summary_line(&n), "Invoice due");
    n.title = String::from("   ");
    assert_eq!(default_summary_line(&n), "Pay by Friday");
    n.body = String::new();
    assert_eq!(default_summary_line(&n), "Billing");
    n.subtitle = String::from(" \t ");
    assert_eq!(default_summary_line(&n), "内容不明の通知");
}

#[test]
fn default_summary_caps_at_sixty_chars_with_ellipsis() {
    let mut n = sample_notification();
    n.title = "a".repeat(61);
    let line = default_summary_line(&n);
    assert_eq!(line.chars().count(), 61);
    let mut expected = "a".repeat(60);
    expected.push('…');
    assert_eq!(line, expected);
    n.title = "b".repeat(60);
    assert_eq!(default_summary_line(&n), "b".repeat(60));
}

#[test]
fn fallback_analysis_is_deterministic_medium() {
    let n = sample_notification();
    let a = fallback_analysis(&n);
    assert_eq!(a.urgency, UrgencyLevel::Medium);
    assert_eq!(a.summary_line, "Invoice due");
    assert_eq!(a.reason, "LLM分析に失敗したため、ローカル規則で中優先として扱いました。");
}

#[test]
fn prompt_holds_fields_and_optional_context() {
    let n = sample_notification();
    let p = build_analysis_prompt(&n, None);
    assert!(p.contains("アプリ: com.app.mail"));
    assert!(p.contains("タイトル: Invoice due"));
    assert!(p.contains("サブタイトル: Billing"));
    assert!(p.contains("本文: Pay by Friday"));
    assert!(!p.contains("追加コンテキスト"));
    let p2 = build_analysis_prompt(&n, Some("billing app"));
    assert!(p2.starts_with(&p));
    assert!(p2.contains("このアプリに関する追加コンテキスト: billing app"));
}

#[test]
fn thinking_blocks_are_stripped() {
    let out = strip_thinking_tags("<think>internal musing</think>  answer  ");
    assert_eq!(out, "answer");
    let out = strip_thinking_tags("a <think>x</think> b <think>y</think> c");
    assert_eq!(out, "a  b  c");
    assert_eq!(strip_thinking_tags("plain"), "plain");
}

#[test]
fn response_body_extraction() {
    assert_eq!(
        response_text_from_body("{\"response\": \"  hello \"}"),
        Some(String::from("hello"))
    );
    assert_eq!(
        response_text_from_body("{\"response\": \"<think>hm</think>fine\"}"),
        Some(String::from("fine"))
    );
    assert_eq!(response_text_from_body("{\"response\": \"   \"}"), None);
    assert_eq!(response_text_from_body("{\"other\": 1}"), None);
    assert_eq!(response_text_from_body("not json"), None);
}

#[test]
fn gemini_body_extraction() {
    let body = "{\"candidates\":[{\"content\":{\"parts\":[{\"text\":\" hi there \"}]}}]}";
    assert_eq!(gemini_text_from_body(body), Some(String::from("hi there")));
    assert_eq!(gemini_text_from_body("{\"candidates\":[]}"), None);
    assert_eq!(gemini_text_from_body("nope"), None);
}

#[test]
fn app_prompts_set_get_remove_list() {
    let mut prompts = AppPrompts::new(String::from("/tmp/app_prompts.json"));
    assert_eq!(prompts.get("com.a"), None);
    prompts.set(String::from("com.a"), String::from("ctx a"));
    prompts.set(String::from("com.b"), String::from("ctx b"));
    assert_eq!(prompts.get("com.a"), Some("ctx a"));
    prompts.set(String::from("com.a"), String::from("ctx a2"));
    assert_eq!(prompts.get("com.a"), Some("ctx a2"));
    let listed = prompts.list();
    assert_eq!(listed.len(), 2);
    assert_eq!(listed[0], (String::from("com.a"), String::from("ctx a2")));
    assert_eq!(listed[1], (String::from("com.b"), String::from("ctx b")));
    assert!(prompts.remove("com.a"));
    assert!(!prompts.remove("com.a"));
    assert_eq!(prompts.get("com.a"), None);
}

#[test]
fn ignored_apps_add_contains_remove_sorted_list() {
    let mut ignored = IgnoredApps::new(String::from("/tmp/ignored.json"));
    assert!(!ignored.contains("com.b"));
    ignored.add(String::from("com.b"));
    ignored.add(String::from("com.a"));
    ignored.add(String::from("com.b"));
    assert!(ignored.contains("com.a"));
    assert!(ignored.contains("com.b"));
    assert_eq!(ignored.list(), vec![String::from("com.a"), String::from("com.b")]);
    assert!(ignored.remove("com.b"));
    assert!(!ignored.remove("com.b"));
    assert_eq!(ignored.list(), vec![String::from("com.a")]);
}
