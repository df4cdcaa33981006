//! The data model: raw notifications as read from the source, their
//! classification, and the grouped shapes handed to the presentation layer.
use vstd::prelude::*;

verus! {

/// The four urgency tiers, ordered from most to least pressing.
#[derive(Debug, Clone, Copy, PartialEq, Eq, Structural)]
pub enum UrgencyLevel {
    Critical,
    High,
    Medium,
    Low,
}

impl UrgencyLevel {
    pub open spec fn label_spec(self) -> Seq<char> {
        match self {
            UrgencyLevel::Critical => "URGENT"@,
            UrgencyLevel::High => "HIGH"@,
            UrgencyLevel::Medium => "NORMAL"@,
            UrgencyLevel::Low => "LOW"@,
        }
    }

    pub fn label(self) -> (r: &'static str)
        ensures
            r@ == self.label_spec(),
    {
        match self {
            UrgencyLevel::Critical => "URGENT",
            UrgencyLevel::High => "HIGH",
            UrgencyLevel::Medium => "NORMAL",
            UrgencyLevel::Low => "LOW",
        }
    }

    pub open spec fn color_spec(self) -> Seq<char> {
        match self {
            UrgencyLevel::Critical => "#ef4444"@,
            UrgencyLevel::High => "#f97316"@,
            UrgencyLevel::Medium => "#f59e0b"@,
            UrgencyLevel::Low => "#22c55e"@,
        }
    }

    pub fn color(self) -> (r: &'static str)
        ensures
            r@ == self.color_spec(),
    {
        match self {
            UrgencyLevel::Critical => "#ef4444",
            UrgencyLevel::High => "#f97316",
            UrgencyLevel::Medium => "#f59e0b",
            UrgencyLevel::Low => "#22c55e",
        }
    }
}

/// The binary environmental mode: Active suppresses real-time delivery.
#[derive(Debug, Clone, Copy, PartialEq, Eq, Structural)]
pub enum FocusState {
    Active,
    Inactive,
}

/// One record read from the notification log.
#[derive(Debug)]
pub struct Notification {
    pub rowid: i64,
    pub title: String,
    pub body: String,
    pub subtitle: String,
    pub bundle_id: String,
    pub timestamp: i64,
}

pub struct NotificationView {
    pub rowid: i64,
    pub title: Seq<char>,
    pub body: Seq<char>,
    pub subtitle: Seq<char>,
    pub bundle_id: Seq<char>,
    pub timestamp: i64,
}

impl View for Notification {
    type V = NotificationView;

    open spec fn view(&self) -> NotificationView {
        NotificationView {
            rowid: self.rowid,
            title: self.title@,
            body: self.body@,
            subtitle: self.subtitle@,
            bundle_id: self.bundle_id@,
            timestamp: self.timestamp,
        }
    }
}

impl Notification {
    /// A field-wise copy.
    pub fn duplicate(&self) -> (r: Notification)
        ensures
            r@ == self@,
    {
        Notification {
            rowid: self.rowid,
            title: self.title.clone(),
            body: self.body.clone(),
            subtitle: self.subtitle.clone(),
            bundle_id: self.bundle_id.clone(),
            timestamp: self.timestamp,
        }
    }
}

/// The urgency verdict for one record.
#[derive(Debug)]
pub struct NotificationAnalysis {
    pub urgency: UrgencyLevel,
    pub summary_line: String,
    pub reason: String,
}

pub struct AnalysisView {
    pub urgency: UrgencyLevel,
    pub summary_line: Seq<char>,
    pub reason: Seq<char>,
}

impl View for NotificationAnalysis {
    type V = AnalysisView;

    open spec fn view(&self) -> AnalysisView {
        AnalysisView {
            urgency: self.urgency,
            summary_line: self.summary_line@,
            reason: self.reason@,
        }
    }
}

/// A record together with its classification, as held by the store.
#[derive(Debug)]
pub struct AnalyzedNotification {
    pub id: i64,
    pub title: String,
    pub body: String,
    pub subtitle: String,
    pub bundle_id: String,
    pub app_name: String,
    pub urgency: UrgencyLevel,
    pub summary_line: String,
    pub reason: String,
    pub timestamp: i64,
}

pub struct AnalyzedView {
    pub id: i64,
    pub title: Seq<char>,
    pub body: Seq<char>,
    pub subtitle: Seq<char>,
    pub bundle_id: Seq<char>,
    pub app_name: Seq<char>,
    pub urgency: UrgencyLevel,
    pub summary_line: Seq<char>,
    pub reason: Seq<char>,
    pub timestamp: i64,
}

impl View for AnalyzedNotification {
    type V = AnalyzedView;

    open spec fn view(&self) -> AnalyzedView {
        AnalyzedView {
            id: self.id,
            title: self.title@,
            body: self.body@,
            subtitle: self.subtitle@,
            bundle_id: self.bundle_id@,
            app_name: self.app_name@,
            urgency: self.urgency,
            summary_line: self.summary_line@,
            reason: self.reason@,
            timestamp: self.timestamp,
        }
    }
}

impl AnalyzedNotification {
    /// A field-wise copy.
    pub fn duplicate(&self) -> (r: AnalyzedNotification)
        ensures
            r@ == self@,
    {
        AnalyzedNotification {
            id: self.id,
            title: self.title.clone(),
            body: self.body.clone(),
            subtitle: self.subtitle.clone(),
            bundle_id: self.bundle_id.clone(),
            app_name: self.app_name.clone(),
            urgency: self.urgency,
            summary_line: self.summary_line.clone(),
            reason: self.reason.clone(),
            timestamp: self.timestamp,
        }
    }
}

/// The three human-visible fields decoded from a record's payload.
#[derive(Debug)]
pub struct ParsedPlist {
    pub title: String,
    pub body: String,
    pub subtitle: String,
}

pub struct ParsedPlistView {
    pub title: Seq<char>,
    pub body: Seq<char>,
    pub subtitle: Seq<char>,
}

impl View for ParsedPlist {
    type V = ParsedPlistView;

    open spec fn view(&self) -> ParsedPlistView {
        ParsedPlistView { title: self.title@, body: self.body@, subtitle: self.subtitle@ }
    }
}

/// One entry of the grouped presentation view.
#[derive(Debug)]
pub struct UiNotification {
    pub id: i64,
    pub title: String,
    pub body: String,
    pub subtitle: String,
    pub bundle_id: String,
    pub app_name: String,
    pub urgency_level: UrgencyLevel,
    pub urgency_label: String,
    pub urgency_color: String,
    pub summary_line: String,
    pub reason: String,
    pub timestamp: i64,
}

/// How a grouped entry must render a stored notification.
pub open spec fn ui_matches(u: UiNotification, a: AnalyzedNotification) -> bool {
    &&& u.id == a.id
    &&& u.title@ == a.title@
    &&& u.body@ == a.body@
    &&& u.subtitle@ == a.subtitle@
    &&& u.bundle_id@ == a.bundle_id@
    &&& u.app_name@ == a.app_name@
    &&& u.urgency_level == a.urgency
    &&& u.urgency_label@ == a.urgency.label_spec()
    &&& u.urgency_color@ == a.urgency.color_spec()
    &&& u.summary_line@ == a.summary_line@
    &&& u.reason@ == a.reason@
    &&& u.timestamp == a.timestamp
}

/// A group of entries sharing one source key.
#[derive(Debug)]
pub struct UiNotificationGroup {
    pub bundle_id: String,
    pub app_name: String,
    pub icon_base64: Option<String>,
    pub notifications: Vec<UiNotification>,
}

} // verus!
