//! The polling orchestrator: the phase-split cycle over the source reader,
//! the mode detector, the classifier and the shared store of classified
//! notifications. Every decision of a cycle is made and verified here; the
//! caller performs the store reads, the mode-file read and the network call
//! between the phases, and hands their outcomes in as plain values.
use vstd::prelude::*;

use crate::db::NotificationDb;
use crate::db::SchemaKind;
use crate::focus::FocusModeDetector;
use crate::llm::{
    contains_str, fallback_spec, parse_analysis_spec, prompts_lookup, AppPromptConfig,
    AppPrompts, IgnoredApps,
};
use crate::models::{
    AnalysisView, AnalyzedNotification, AnalyzedView, FocusState, Notification,
    NotificationAnalysis, NotificationView, UiNotification, UiNotificationGroup, UrgencyLevel,
};
use crate::textutil::last_idx;

verus! {

/// The derived display name of a source key: its last dot-separated segment,
/// or the whole key when that segment is empty.
pub open spec fn app_name_spec(b: Seq<char>) -> Seq<char> {
    match last_idx(b, '.') {
        Some(i) => if i + 1 < b.len() {
            b.skip(i + 1)
        } else {
            b
        },
        None => b,
    }
}

pub fn app_name_from_bundle(bundle_id: &str) -> (r: String)
    ensures
        r@ == app_name_spec(bundle_id@),
{
    let n = bundle_id.unicode_len();
    match crate::textutil::rfind_char(bundle_id, '.') {
        Some(i) => {
            proof {
                crate::textutil::lemma_last_idx_bounds(bundle_id@, '.');
            }
            if i + 1 < n {
                bundle_id.substring_char(i + 1, n).to_owned()
            } else {
                bundle_id.to_owned()
            }
        },
        None => bundle_id.to_owned(),
    }
}

/// The outcome of one classifier transport attempt, as the caller saw it.
#[derive(Debug)]
pub enum GenerateOutcome {
    /// No backend is reachable or configured.
    Unavailable,
    /// The call failed or its reply held no usable text.
    Failed,
    /// The backend replied with this generated text.
    Responded(String),
}

/// The classification decided for a record, given the transport outcome:
/// a reachable backend's parseable reply wins; everything else falls back
/// deterministically, and an unavailable backend is named in the reason.
pub open spec fn analyze_spec(n: NotificationView, o: GenerateOutcome) -> AnalysisView {
    match o {
        GenerateOutcome::Unavailable => AnalysisView {
            urgency: UrgencyLevel::Medium,
            summary_line: crate::llm::default_summary_spec(n),
            reason: "Ollamaが起動していないため分析できませんでした。`ollama serve` を実行してください。"@,
        },
        GenerateOutcome::Failed => fallback_spec(n),
        GenerateOutcome::Responded(text) => match parse_analysis_spec(text@, n) {
            Some(a) => a,
            None => fallback_spec(n),
        },
    }
}

/// Classify one record from the transport outcome. Never fails: every
/// outcome yields a usable classification.
pub fn analyze_single(notification: &Notification, outcome: &GenerateOutcome) -> (r:
    NotificationAnalysis)
    ensures
        r@ == analyze_spec(notification@, *outcome),
{
    match outcome {
        GenerateOutcome::Unavailable => NotificationAnalysis {
            urgency: UrgencyLevel::Medium,
            summary_line: crate::llm::default_summary_line(notification),
            reason: String::from_str(
                "Ollamaが起動していないため分析できませんでした。`ollama serve` を実行してください。",
            ),
        },
        GenerateOutcome::Failed => crate::llm::fallback_analysis(notification),
        GenerateOutcome::Responded(text) => match crate::llm::parse_analysis_response(
            text.as_str(),
            notification,
        ) {
            Some(parsed) => parsed,
            None => crate::llm::fallback_analysis(notification),
        },
    }
}

/// Whatever the classifier transport did, the classification is usable: its
/// tier is one of the four defined values and its summary line is non-empty.
pub proof fn lemma_classification_always_usable(n: NotificationView, o: GenerateOutcome)
    ensures
        analyze_spec(n, o).summary_line.len() > 0,
        analyze_spec(n, o).urgency matches UrgencyLevel::Critical
            || analyze_spec(n, o).urgency matches UrgencyLevel::High
            || analyze_spec(n, o).urgency matches UrgencyLevel::Medium
            || analyze_spec(n, o).urgency matches UrgencyLevel::Low,
{
    crate::llm::lemma_default_summary_nonempty(n);
    match o {
        GenerateOutcome::Responded(text) => {
            match parse_analysis_spec(text@, n) {
                Some(a) => {
                    crate::llm::lemma_parse_summary_nonempty(text@, n);
                },
                None => {},
            }
        },
        _ => {},
    }
}

/// The stored form of a record and its classification.
pub open spec fn analyzed_of(n: NotificationView, a: AnalysisView) -> AnalyzedView {
    AnalyzedView {
        id: n.rowid,
        title: n.title,
        body: n.body,
        subtitle: n.subtitle,
        bundle_id: n.bundle_id,
        app_name: app_name_spec(n.bundle_id),
        urgency: a.urgency,
        summary_line: a.summary_line,
        reason: a.reason,
        timestamp: n.timestamp,
    }
}

/// The views of a sequence of stored notifications.
pub open spec fn an_views(s: Seq<AnalyzedNotification>) -> Seq<AnalyzedView> {
    s.map_values(|x: AnalyzedNotification| x@)
}

/// The Critical entries of a sequence, in order.
pub open spec fn crit_filter(s: Seq<AnalyzedView>) -> Seq<AnalyzedView>
    decreases s.len(),
{
    if s.len() == 0 {
        s
    } else if s.last().urgency == UrgencyLevel::Critical {
        crit_filter(s.drop_last()).push(s.last())
    } else {
        crit_filter(s.drop_last())
    }
}

/// Classify a batch of pending records from their transport outcomes,
/// pairing each record with the outcome at its position. Returns the
/// classified batch in read order, and the Critical ones again, in the same
/// order, for the caller's alert delivery.
pub fn analyze_notifications_batch(
    pending: Vec<(Notification, Option<String>)>,
    outcomes: &Vec<GenerateOutcome>,
) -> (r: (Vec<AnalyzedNotification>, Vec<AnalyzedNotification>))
    requires
        outcomes@.len() == pending@.len(),
    ensures
        r.0@.len() == pending@.len(),
        forall|i: int|
            0 <= i < r.0@.len() ==> r.0@[i]@ == analyzed_of(
                pending@[i].0@,
                analyze_spec(pending@[i].0@, outcomes@[i]),
            ),
        an_views(r.1@) == crit_filter(an_views(r.0@)),
{
    let n = pending.len();
    let mut results: Vec<AnalyzedNotification> = Vec::new();
    let mut criticals: Vec<AnalyzedNotification> = Vec::new();
    let mut i: usize = 0;
    proof {
        assert(an_views(results@) =~= Seq::<AnalyzedView>::empty());
        assert(crit_filter(an_views(results@)) =~= Seq::<AnalyzedView>::empty());
        assert(an_views(criticals@) =~= Seq::<AnalyzedView>::empty());
    }
    while i < n
        invariant
            0 <= i <= n,
            n == pending@.len(),
            n == outcomes@.len(),
            results@.len() == i,
            forall|j: int|
                0 <= j < i ==> results@[j]@ == analyzed_of(
                    pending@[j].0@,
                    analyze_spec(pending@[j].0@, outcomes@[j]),
                ),
            an_views(criticals@) == crit_filter(an_views(results@)),
        decreases n - i,
    {
        let pair = &pending[i];
        let analysis = analyze_single(&pair.0, &outcomes[i]);
        let analyzed = AnalyzedNotification {
            id: pair.0.rowid,
            title: pair.0.title.clone(),
            body: pair.0.body.clone(),
            subtitle: pair.0.subtitle.clone(),
            bundle_id: pair.0.bundle_id.clone(),
            app_name: app_name_from_bundle(pair.0.bundle_id.as_str()),
            urgency: analysis.urgency,
            summary_line: analysis.summary_line,
            reason: analysis.reason,
            timestamp: pair.0.timestamp,
        };
        let is_critical = matches!(analyzed.urgency, UrgencyLevel::Critical);
        let ghost old_results = results@;
        let ghost old_criticals = criticals@;
        if is_critical {
            criticals.push(analyzed.duplicate());
        }
        results.push(analyzed);
        proof {
            assert(an_views(results@) =~= an_views(old_results).push(results@[i as int]@));
            assert(an_views(results@).drop_last() =~= an_views(old_results));
            if is_critical {
                assert(an_views(criticals@) =~= an_views(old_criticals).push(
                    results@[i as int]@,
                ));
            }
            assert(crit_filter(an_views(results@)) == if results@[i as int]@.urgency
                == UrgencyLevel::Critical {
                crit_filter(an_views(old_results)).push(results@[i as int]@)
            } else {
                crit_filter(an_views(old_results))
            });
        }
        i = i + 1;
    }
    (results, criticals)
}

/// What the locked first phase of a cycle hands on.
pub struct PollReadResult {
    /// The records to classify, each with its resolved per-source context.
    pub pending: Vec<(Notification, Option<String>)>,
    /// Whether the mode just ended and the caller owes the summary signal.
    pub focus_ended: bool,
}

/// The view of an optional context string.
pub open spec fn opt_text_view(o: Option<String>) -> Option<Seq<char>> {
    match o {
        Some(s) => Some(s@),
        None => None,
    }
}

/// The pending pairs of a read batch under Active mode: the records whose
/// source is not ignored, in read order, each with the context stored for
/// its source.
pub open spec fn pending_spec(
    batch: Seq<Notification>,
    ignored: Seq<String>,
    prompts: Seq<(String, AppPromptConfig)>,
) -> Seq<(NotificationView, Option<Seq<char>>)>
    decreases batch.len(),
{
    if batch.len() == 0 {
        Seq::empty()
    } else {
        let rest = pending_spec(batch.drop_last(), ignored, prompts);
        if contains_str(ignored, batch.last()@.bundle_id) {
            rest
        } else {
            rest.push((batch.last()@, prompts_lookup(prompts, batch.last()@.bundle_id)))
        }
    }
}

/// The views of the pending pairs.
pub open spec fn pending_views(s: Seq<(Notification, Option<String>)>) -> Seq<
    (NotificationView, Option<Seq<char>>),
> {
    s.map_values(|p: (Notification, Option<String>)| (p.0@, opt_text_view(p.1)))
}

/// The cursor after a batch: the greatest identifier observed, never less
/// than the cursor before.
pub open spec fn advanced_cursor(cursor: i64, batch: Seq<Notification>) -> i64
    decreases batch.len(),
{
    if batch.len() == 0 {
        cursor
    } else {
        let rest = advanced_cursor(cursor, batch.drop_last());
        if batch.last().rowid > rest {
            batch.last().rowid
        } else {
            rest
        }
    }
}

pub proof fn lemma_advanced_cursor_bounds(cursor: i64, batch: Seq<Notification>)
    ensures
        advanced_cursor(cursor, batch) >= cursor,
        forall|i: int|
            0 <= i < batch.len() ==> batch[i].rowid <= advanced_cursor(cursor, batch),
    decreases batch.len(),
{
    if batch.len() > 0 {
        lemma_advanced_cursor_bounds(cursor, batch.drop_last());
        assert forall|i: int|
            0 <= i < batch.len() implies batch[i].rowid <= advanced_cursor(cursor, batch) by {
            if i < batch.len() - 1 {
                assert(batch[i] == batch.drop_last()[i]);
            }
        }
    }
}

/// How many entries of `s` carry urgency `u`.
pub open spec fn count_urgency(s: Seq<AnalyzedNotification>, u: UrgencyLevel) -> int
    decreases s.len(),
{
    if s.len() == 0 {
        0
    } else {
        count_urgency(s.drop_last(), u) + if s.last().urgency == u {
            1int
        } else {
            0int
        }
    }
}


/// The entries whose identifier is not `id`, in order.
pub open spec fn remove_id_spec(s: Seq<AnalyzedNotification>, id: i64) -> Seq<
    AnalyzedNotification,
>
    decreases s.len(),
{
    if s.len() == 0 {
        s
    } else if s[0].id == id {
        remove_id_spec(s.drop_first(), id)
    } else {
        seq![s[0]] + remove_id_spec(s.drop_first(), id)
    }
}

/// The entries whose source key is not `key`, in order.
pub open spec fn remove_app_spec(s: Seq<AnalyzedNotification>, key: Seq<char>) -> Seq<
    AnalyzedNotification,
>
    decreases s.len(),
{
    if s.len() == 0 {
        s
    } else if s[0].bundle_id@ == key {
        remove_app_spec(s.drop_first(), key)
    } else {
        seq![s[0]] + remove_app_spec(s.drop_first(), key)
    }
}


/// No two stored entries share an identifier.
pub open spec fn ids_unique(s: Seq<AnalyzedNotification>) -> bool {
    forall|i: int, j: int| 0 <= i < j < s.len() ==> s[i].id != s[j].id
}

/// The state machine and phase-split driver of the polling cycle: owns the
/// cursor, the mode-edge detector, the shared store of classified
/// notifications and the loaded configuration.
pub struct NotifyOrchestrator {
    reader: NotificationDb,
    focus_detector: FocusModeDetector,
    app_prompts: AppPrompts,
    ignored_apps: IgnoredApps,
    last_rowid: i64,
    collected: Vec<AnalyzedNotification>,
    was_focused: bool,
}

impl NotifyOrchestrator {
    pub closed spec fn reader_spec(&self) -> NotificationDb {
        self.reader
    }

    pub closed spec fn detector_spec(&self) -> FocusModeDetector {
        self.focus_detector
    }

    pub closed spec fn prompts_spec(&self) -> AppPrompts {
        self.app_prompts
    }

    pub closed spec fn ignored_spec(&self) -> IgnoredApps {
        self.ignored_apps
    }

    /// The high-water mark of records already consumed.
    pub closed spec fn cursor_spec(&self) -> i64 {
        self.last_rowid
    }

    /// The stored classified notifications, in merge order.
    pub closed spec fn collected_spec(&self) -> Seq<AnalyzedNotification> {
        self.collected@
    }

    /// Whether the previous cycle saw the Active mode.
    pub closed spec fn was_focused_spec(&self) -> bool {
        self.was_focused
    }

    pub fn new(
        reader: NotificationDb,
        focus_detector: FocusModeDetector,
        app_prompts: AppPrompts,
        ignored_apps: IgnoredApps,
        initial_rowid: i64,
    ) -> (r: NotifyOrchestrator)
        ensures
            r.reader_spec() == reader,
            r.detector_spec() == focus_detector,
            r.prompts_spec() == app_prompts,
            r.ignored_spec() == ignored_apps,
            r.cursor_spec() == initial_rowid,
            r.collected_spec() =~= Seq::<AnalyzedNotification>::empty(),
            !r.was_focused_spec(),
    {
        NotifyOrchestrator {
            reader,
            focus_detector,
            app_prompts,
            ignored_apps,
            last_rowid: initial_rowid,
            collected: Vec::new(),
            was_focused: false,
        }
    }

    /// The high-water mark of records already consumed: the next read asks
    /// only for records past it.
    pub fn cursor(&self) -> (r: i64)
        ensures
            r == self.cursor_spec(),
    {
        self.last_rowid
    }

    /// Where the notification store lives.
    pub fn db_path(&self) -> (r: &String)
        ensures
            r@ == self.reader_spec().db_path_spec(),
    {
        self.reader.path()
    }

    /// Where the mode assertions document lives.
    pub fn focus_path(&self) -> (r: &String)
        ensures
            r@ == self.detector_spec().path_spec(),
    {
        self.focus_detector.path()
    }

    /// Decide the mode from the text read at the assertions path.
    pub fn focus_state_from_text(&self, text: Option<&str>) -> (r: FocusState)
        ensures
            r == crate::focus::focus_state_spec(
                match text {
                    Some(t) => Some(t@),
                    None => None,
                },
            ),
    {
        self.focus_detector.state_from_text(text)
    }

    /// Decide and memoize the store's layout from the trial outcomes.
    pub fn resolve_query(&mut self, z_ok: bool, record_ok: bool) -> (r: Option<SchemaKind>)
        ensures
            r == match old(self).reader_spec().query_spec() {
                Some(q) => Some(q),
                None => if z_ok {
                    Some(SchemaKind::Z)
                } else if record_ok {
                    Some(SchemaKind::Record)
                } else {
                    None
                },
            },
            final(self).reader_spec().query_spec() == r,
            final(self).reader_spec().db_path_spec() == old(self).reader_spec().db_path_spec(),
            final(self).detector_spec() == old(self).detector_spec(),
            final(self).prompts_spec() == old(self).prompts_spec(),
            final(self).ignored_spec() == old(self).ignored_spec(),
            final(self).cursor_spec() == old(self).cursor_spec(),
            final(self).collected_spec() == old(self).collected_spec(),
            final(self).was_focused_spec() == old(self).was_focused_spec(),
    {
        self.reader.resolve_query(z_ok, record_ok)
    }

    /// The locked first phase: consume a read batch and the detected mode.
    /// The cursor advances over everything read, whatever is later ignored
    /// or dropped; a failed read (`None`) leaves it unchanged. Under the
    /// Inactive mode nothing read is retained, classified or stored. The
    /// mode-ended flag fires exactly on the Active-to-Inactive edge with a
    /// non-empty store.
    pub fn poll_read_new(&mut self, reads: Option<Vec<Notification>>, state: FocusState) -> (r:
        PollReadResult)
        ensures
            final(self).cursor_spec() == match reads {
                Some(batch) => advanced_cursor(old(self).cursor_spec(), batch@),
                None => old(self).cursor_spec(),
            },
            final(self).cursor_spec() >= old(self).cursor_spec(),
            final(self).collected_spec() == old(self).collected_spec(),
            final(self).reader_spec() == old(self).reader_spec(),
            final(self).detector_spec() == old(self).detector_spec(),
            final(self).prompts_spec() == old(self).prompts_spec(),
            final(self).ignored_spec() == old(self).ignored_spec(),
            final(self).was_focused_spec() == (state matches FocusState::Active),
            r.focus_ended == (state matches FocusState::Inactive && old(self).was_focused_spec()
                && old(self).collected_spec().len() > 0),
            match (reads, state) {
                (Some(batch), FocusState::Active) => pending_views(r.pending@) == pending_spec(
                    batch@,
                    old(self).ignored_spec().set_spec(),
                    old(self).prompts_spec().entries_spec(),
                ),
                _ => r.pending@.len() == 0,
            },
            state matches FocusState::Inactive ==> r.pending@.len() == 0,
    {
        let is_focused = matches!(state, FocusState::Active);
        let mut pending: Vec<(Notification, Option<String>)> = Vec::new();
        match reads {
            Some(batch) => {
                let n = batch.len();
                let mut i: usize = 0;
                proof {
                    assert(pending_views(pending@) =~= Seq::<
                        (NotificationView, Option<Seq<char>>),
                    >::empty());
                    assert(pending_spec(
                        batch@.take(0),
                        self.ignored_apps.set_spec(),
                        self.app_prompts.entries_spec(),
                    ) =~= Seq::<(NotificationView, Option<Seq<char>>)>::empty());
                    assert(advanced_cursor(self.last_rowid, batch@.take(0)) == self.last_rowid);
                }
                let ghost entries = self.app_prompts.entries_spec();
                let ghost ignored = self.ignored_apps.set_spec();
                let ghost cursor0 = self.last_rowid;
                let mut cursor = self.last_rowid;
                while i < n
                    invariant
                        0 <= i <= n,
                        n == batch@.len(),
                        entries == old(self).prompts_spec().entries_spec(),
                        ignored == old(self).ignored_spec().set_spec(),
                        cursor0 == old(self).cursor_spec(),
                        *self == *old(self),
                        self.app_prompts.entries_spec() == entries,
                        self.ignored_apps.set_spec() == ignored,
                        cursor == advanced_cursor(cursor0, batch@.take(i as int)),
                        if is_focused {
                            pending_views(pending@) == pending_spec(
                                batch@.take(i as int),
                                ignored,
                                entries,
                            )
                        } else {
                            pending@.len() == 0
                        },
                    decreases n - i,
                {
                    let item = &batch[i];
                    proof {
                        assert(batch@.take(i + 1).drop_last() =~= batch@.take(i as int));
                        assert(batch@.take(i + 1).last() == batch@[i as int]);
                    }
                    if item.rowid > cursor {
                        cursor = item.rowid;
                    }
                    if is_focused {
                        let ghost old_pending = pending@;
                        if !self.ignored_apps.contains(item.bundle_id.as_str()) {
                            let context: Option<String> = match self.app_prompts.get(
                                item.bundle_id.as_str(),
                            ) {
                                Some(c) => Some(c.to_owned()),
                                None => None,
                            };
                            pending.push((item.duplicate(), context));
                            proof {
                                assert(pending_views(pending@) =~= pending_views(
                                    old_pending,
                                ).push((batch@[i as int]@, prompts_lookup(
                                    entries,
                                    batch@[i as int]@.bundle_id,
                                ))));
                            }
                        }
                    }
                    i = i + 1;
                }
                proof {
                    assert(batch@.take(n as int) =~= batch@);
                    lemma_advanced_cursor_bounds(cursor0, batch@);
                }
                self.last_rowid = cursor;
            },
            None => {},
        }
        let focus_ended = !is_focused && self.was_focused && self.collected.len() > 0;
        self.was_focused = is_focused;
        PollReadResult { pending, focus_ended }
    }

    /// The locked third phase: merge the classified batch into the store by
    /// appending in order. Reports whether the store changed.
    pub fn poll_store_results(&mut self, results: Vec<AnalyzedNotification>) -> (r: bool)
        ensures
            final(self).collected_spec() == old(self).collected_spec() + results@,
            r == (results@.len() > 0),
            final(self).cursor_spec() == old(self).cursor_spec(),
            final(self).reader_spec() == old(self).reader_spec(),
            final(self).detector_spec() == old(self).detector_spec(),
            final(self).prompts_spec() == old(self).prompts_spec(),
            final(self).ignored_spec() == old(self).ignored_spec(),
            final(self).was_focused_spec() == old(self).was_focused_spec(),
    {
        if results.is_empty() {
            proof {
                assert(self.collected@ =~= self.collected@ + results@);
            }
            return false;
        }
        let mut rest = results;
        self.collected.append(&mut rest);
        true
    }

    /// The count that the mode-ended signal reports: everything stored.
    pub fn on_focus_ended(&self) -> (r: usize)
        ensures
            r == self.collected_spec().len(),
    {
        self.collected.len()
    }

    /// Per-tier counts of the stored notifications, from Critical down.
    pub fn urgency_counts(&self) -> (counts: [usize; 4])
        ensures
            counts@[0] == count_urgency(self.collected_spec(), UrgencyLevel::Critical),
            counts@[1] == count_urgency(self.collected_spec(), UrgencyLevel::High),
            counts@[2] == count_urgency(self.collected_spec(), UrgencyLevel::Medium),
            counts@[3] == count_urgency(self.collected_spec(), UrgencyLevel::Low),
            counts@[0] + counts@[1] + counts@[2] + counts@[3] == self.collected_spec().len(),
    {
        let n = self.collected.len();
        let mut c0: usize = 0;
        let mut c1: usize = 0;
        let mut c2: usize = 0;
        let mut c3: usize = 0;
        let mut i: usize = 0;
        while i < n
            invariant
                0 <= i <= n,
                n == self.collected@.len(),
                c0 == count_urgency(self.collected@.take(i as int), UrgencyLevel::Critical),
                c1 == count_urgency(self.collected@.take(i as int), UrgencyLevel::High),
                c2 == count_urgency(self.collected@.take(i as int), UrgencyLevel::Medium),
                c3 == count_urgency(self.collected@.take(i as int), UrgencyLevel::Low),
                c0 + c1 + c2 + c3 == i,
            decreases n - i,
        {
            proof {
                assert(self.collected@.take(i + 1).drop_last() =~= self.collected@.take(
                    i as int,
                ));
                assert(self.collected@.take(i + 1).last() == self.collected@[i as int]);
            }
            match self.collected[i].urgency {
                UrgencyLevel::Critical => {
                    c0 = c0 + 1;
                },
                UrgencyLevel::High => {
                    c1 = c1 + 1;
                },
                UrgencyLevel::Medium => {
                    c2 = c2 + 1;
                },
                UrgencyLevel::Low => {
                    c3 = c3 + 1;
                },
            }
            i = i + 1;
        }
        proof {
            assert(self.collected@.take(n as int) =~= self.collected@);
        }
        [c0, c1, c2, c3]
    }

    /// Drop the entry with this identifier; reports whether one was dropped.
    pub fn clear_notification(&mut self, id: i64) -> (r: bool)
        ensures
            final(self).collected_spec() == remove_id_spec(old(self).collected_spec(), id),
            r == (final(self).collected_spec().len() != old(self).collected_spec().len()),
            final(self).cursor_spec() == old(self).cursor_spec(),
            final(self).reader_spec() == old(self).reader_spec(),
            final(self).detector_spec() == old(self).detector_spec(),
            final(self).prompts_spec() == old(self).prompts_spec(),
            final(self).ignored_spec() == old(self).ignored_spec(),
            final(self).was_focused_spec() == old(self).was_focused_spec(),
    {
        let ghost s = old(self).collected_spec();
        let n = self.collected.len();
        let mut i: usize = n;
        proof {
            assert(s.skip(n as int) =~= Seq::<AnalyzedNotification>::empty());
            assert(self.collected@ =~= s.take(n as int) + remove_id_spec(s.skip(n as int), id));
        }
        while i > 0
            invariant
                s == old(self).collected_spec(),
                0 <= i <= n,
                n == s.len(),
                i <= self.collected@.len(),
                self.collected@ == s.take(i as int) + remove_id_spec(s.skip(i as int), id),
                self.cursor_spec() == old(self).cursor_spec(),
                self.reader_spec() == old(self).reader_spec(),
                self.detector_spec() == old(self).detector_spec(),
                self.prompts_spec() == old(self).prompts_spec(),
                self.ignored_spec() == old(self).ignored_spec(),
                self.was_focused_spec() == old(self).was_focused_spec(),
            decreases i,
        {
            i = i - 1;
            proof {
                assert(s.skip(i as int).drop_first() =~= s.skip(i + 1));
                assert(s.skip(i as int)[0] == s[i as int]);
                assert(self.collected@[i as int] == s.take(i + 1)[i as int]);
                assert(self.collected@[i as int] == s[i as int]);
            }
            let ghost before = self.collected@;
            if self.collected[i].id == id {
                self.collected.remove(i);
                proof {
                    assert(self.collected@ =~= s.take(i as int) + remove_id_spec(
                        s.skip(i as int),
                        id,
                    ));
                }
            } else {
                proof {
                    assert(self.collected@ =~= s.take(i as int) + remove_id_spec(
                        s.skip(i as int),
                        id,
                    ));
                }
            }
        }
        proof {
            assert(s.take(0) =~= Seq::<AnalyzedNotification>::empty());
            assert(self.collected@ =~= remove_id_spec(s, id));
            assert(s.skip(0) =~= s);
        }
        let changed = self.collected.len() != n;
        changed
    }

    /// Drop every entry of this source key; reports how many were dropped.
    pub fn clear_app_notifications(&mut self, bundle_id: &str) -> (r: usize)
        ensures
            final(self).collected_spec() == remove_app_spec(
                old(self).collected_spec(),
                bundle_id@,
            ),
            r == old(self).collected_spec().len() - final(self).collected_spec().len(),
            final(self).cursor_spec() == old(self).cursor_spec(),
            final(self).reader_spec() == old(self).reader_spec(),
            final(self).detector_spec() == old(self).detector_spec(),
            final(self).prompts_spec() == old(self).prompts_spec(),
            final(self).ignored_spec() == old(self).ignored_spec(),
            final(self).was_focused_spec() == old(self).was_focused_spec(),
    {
        let ghost s = old(self).collected_spec();
        let n = self.collected.len();
        let mut i: usize = n;
        proof {
            assert(s.skip(n as int) =~= Seq::<AnalyzedNotification>::empty());
            assert(self.collected@ =~= s.take(n as int) + remove_app_spec(
                s.skip(n as int),
                bundle_id@,
            ));
        }
        while i > 0
            invariant
                s == old(self).collected_spec(),
                0 <= i <= n,
                n == s.len(),
                i <= self.collected@.len(),
                self.collected@.len() <= n,
                self.collected@ == s.take(i as int) + remove_app_spec(
                    s.skip(i as int),
                    bundle_id@,
                ),
                self.cursor_spec() == old(self).cursor_spec(),
                self.reader_spec() == old(self).reader_spec(),
                self.detector_spec() == old(self).detector_spec(),
                self.prompts_spec() == old(self).prompts_spec(),
                self.ignored_spec() == old(self).ignored_spec(),
                self.was_focused_spec() == old(self).was_focused_spec(),
            decreases i,
        {
            i = i - 1;
            proof {
                assert(s.skip(i as int).drop_first() =~= s.skip(i + 1));
                assert(s.skip(i as int)[0] == s[i as int]);
                assert(self.collected@[i as int] == s.take(i + 1)[i as int]);
                assert(self.collected@[i as int] == s[i as int]);
            }
            let matched = crate::textutil::str_eq(
                self.collected[i].bundle_id.as_str(),
                bundle_id,
            );
            if matched {
                self.collected.remove(i);
                proof {
                    assert(self.collected@ =~= s.take(i as int) + remove_app_spec(
                        s.skip(i as int),
                        bundle_id@,
                    ));
                }
            } else {
                proof {
                    assert(self.collected@ =~= s.take(i as int) + remove_app_spec(
                        s.skip(i as int),
                        bundle_id@,
                    ));
                }
            }
        }
        proof {
            assert(s.take(0) =~= Seq::<AnalyzedNotification>::empty());
            assert(self.collected@ =~= remove_app_spec(s, bundle_id@));
            assert(s.skip(0) =~= s);
        }
        let removed = n - self.collected.len();
        removed
    }

    /// Empty the store; reports how many entries it held.
    pub fn clear_all(&mut self) -> (r: usize)
        ensures
            final(self).collected_spec().len() == 0,
            r == old(self).collected_spec().len(),
            final(self).cursor_spec() == old(self).cursor_spec(),
            final(self).reader_spec() == old(self).reader_spec(),
            final(self).detector_spec() == old(self).detector_spec(),
            final(self).prompts_spec() == old(self).prompts_spec(),
            final(self).ignored_spec() == old(self).ignored_spec(),
            final(self).was_focused_spec() == old(self).was_focused_spec(),
    {
        let count = self.collected.len();
        self.collected.clear();
        count
    }

    /// The stored per-source contexts, as key/context pairs.
    pub fn list_app_prompts(&self) -> (r: Vec<(String, String)>)
        ensures
            r@.len() == self.prompts_spec().entries_spec().len(),
            forall|i: int|
                0 <= i < r@.len() ==> r@[i].0@ == self.prompts_spec().entries_spec()[i].0@
                    && r@[i].1@ == self.prompts_spec().entries_spec()[i].1.context@,
    {
        self.app_prompts.list()
    }

    /// Store a per-source context in memory; the caller persists it.
    pub fn set_app_prompt(&mut self, bundle_id: String, context: String)
        ensures
            final(self).prompts_spec().entries_spec() == crate::llm::prompts_set_spec(
                old(self).prompts_spec().entries_spec(),
                bundle_id,
                context,
            ),
            final(self).prompts_spec().path_spec() == old(self).prompts_spec().path_spec(),
            old(self).prompts_spec().wf() ==> final(self).prompts_spec().wf(),
            final(self).cursor_spec() == old(self).cursor_spec(),
            final(self).collected_spec() == old(self).collected_spec(),
            final(self).reader_spec() == old(self).reader_spec(),
            final(self).detector_spec() == old(self).detector_spec(),
            final(self).ignored_spec() == old(self).ignored_spec(),
            final(self).was_focused_spec() == old(self).was_focused_spec(),
    {
        self.app_prompts.set(bundle_id, context);
    }

    /// Drop a per-source context in memory; the caller persists the change
    /// when one was dropped.
    pub fn delete_app_prompt(&mut self, bundle_id: &str) -> (r: bool)
        ensures
            final(self).prompts_spec().entries_spec() == crate::llm::prompts_remove_spec(
                old(self).prompts_spec().entries_spec(),
                bundle_id@,
            ),
            r == (crate::llm::prompts_lookup(
                old(self).prompts_spec().entries_spec(),
                bundle_id@,
            ) is Some),
            final(self).prompts_spec().path_spec() == old(self).prompts_spec().path_spec(),
            old(self).prompts_spec().wf() ==> final(self).prompts_spec().wf(),
            final(self).cursor_spec() == old(self).cursor_spec(),
            final(self).collected_spec() == old(self).collected_spec(),
            final(self).reader_spec() == old(self).reader_spec(),
            final(self).detector_spec() == old(self).detector_spec(),
            final(self).ignored_spec() == old(self).ignored_spec(),
            final(self).was_focused_spec() == old(self).was_focused_spec(),
    {
        self.app_prompts.remove(bundle_id)
    }

    /// The ignored source keys, sorted.
    pub fn list_ignored_apps(&self) -> (r: Vec<String>)
        ensures
            crate::textutil::sorted_lex_strings(r@),
            crate::textutil::views_of(r@).to_multiset() == crate::textutil::views_of(
                self.ignored_spec().set_spec(),
            ).to_multiset(),
    {
        self.ignored_apps.list()
    }

    /// Add a source key to the ignore-list in memory; the caller persists it.
    pub fn add_ignored_app(&mut self, bundle_id: String)
        ensures
            final(self).ignored_spec().set_spec() == if contains_str(
                old(self).ignored_spec().set_spec(),
                bundle_id@,
            ) {
                old(self).ignored_spec().set_spec()
            } else {
                old(self).ignored_spec().set_spec().push(bundle_id)
            },
            final(self).ignored_spec().path_spec() == old(self).ignored_spec().path_spec(),
            old(self).ignored_spec().wf() ==> final(self).ignored_spec().wf(),
            final(self).cursor_spec() == old(self).cursor_spec(),
            final(self).collected_spec() == old(self).collected_spec(),
            final(self).reader_spec() == old(self).reader_spec(),
            final(self).detector_spec() == old(self).detector_spec(),
            final(self).prompts_spec() == old(self).prompts_spec(),
            final(self).was_focused_spec() == old(self).was_focused_spec(),
    {
        self.ignored_apps.add(bundle_id);
    }

    /// Drop a source key from the ignore-list in memory; the caller persists
    /// the change when one was dropped.
    pub fn remove_ignored_app(&mut self, bundle_id: &str) -> (r: bool)
        ensures
            r == contains_str(old(self).ignored_spec().set_spec(), bundle_id@),
            !contains_str(final(self).ignored_spec().set_spec(), bundle_id@) || !old(
                self,
            ).ignored_spec().wf(),
            final(self).ignored_spec().path_spec() == old(self).ignored_spec().path_spec(),
            old(self).ignored_spec().wf() ==> final(self).ignored_spec().wf(),
            final(self).cursor_spec() == old(self).cursor_spec(),
            final(self).collected_spec() == old(self).collected_spec(),
            final(self).reader_spec() == old(self).reader_spec(),
            final(self).detector_spec() == old(self).detector_spec(),
            final(self).prompts_spec() == old(self).prompts_spec(),
            final(self).was_focused_spec() == old(self).was_focused_spec(),
    {
        self.ignored_apps.remove(bundle_id)
    }
}


/// Insert an entry into a newest-first run: it lands after every entry at
/// least as new, so that among equal timestamps the earlier-inserted (later
/// read) entry stays first.
pub open spec fn ins_ts(
    acc: Seq<AnalyzedNotification>,
    e: AnalyzedNotification,
) -> Seq<AnalyzedNotification>
    decreases acc.len(),
{
    if acc.len() == 0 {
        seq![e]
    } else if acc[0].timestamp >= e.timestamp {
        seq![acc[0]] + ins_ts(acc.drop_first(), e)
    } else {
        seq![e] + acc
    }
}

pub proof fn lemma_ins_ts_len(acc: Seq<AnalyzedNotification>, e: AnalyzedNotification)
    ensures
        ins_ts(acc, e).len() == acc.len() + 1,
    decreases acc.len(),
{
    if acc.len() > 0 && acc[0].timestamp >= e.timestamp {
        lemma_ins_ts_len(acc.drop_first(), e);
    }
}

proof fn lemma_ins_ts_at(acc: Seq<AnalyzedNotification>, e: AnalyzedNotification, p: int)
    requires
        0 <= p <= acc.len(),
        forall|q: int| 0 <= q < p ==> acc[q].timestamp >= e.timestamp,
        p == acc.len() || acc[p].timestamp < e.timestamp,
    ensures
        ins_ts(acc, e) == acc.insert(p, e),
    decreases p,
{
    if p == 0 {
        if acc.len() == 0 {
            assert(ins_ts(acc, e) =~= acc.insert(0, e));
        } else {
            assert(ins_ts(acc, e) =~= acc.insert(0, e));
        }
    } else {
        assert(acc[0].timestamp >= e.timestamp);
        lemma_ins_ts_at(acc.drop_first(), e, p - 1);
        assert(ins_ts(acc, e) =~= acc.insert(p, e));
    }
}

/// The entries of one source key, newest first; among equal times the later
/// read entry comes first.
pub open spec fn group_seq(s: Seq<AnalyzedNotification>, k: Seq<char>) -> Seq<
    AnalyzedNotification,
>
    decreases s.len(),
{
    if s.len() == 0 {
        Seq::empty()
    } else if s[0].bundle_id@ == k {
        ins_ts(group_seq(s.drop_first(), k), s[0])
    } else {
        group_seq(s.drop_first(), k)
    }
}

pub proof fn lemma_group_nonempty(s: Seq<AnalyzedNotification>, k: Seq<char>, w: int)
    requires
        0 <= w < s.len(),
        s[w].bundle_id@ == k,
    ensures
        group_seq(s, k).len() > 0,
    decreases w,
{
    if s[0].bundle_id@ == k {
        lemma_ins_ts_len(group_seq(s.drop_first(), k), s[0]);
    } else {
        assert(w > 0);
        assert(s.drop_first()[w - 1] == s[w]);
        lemma_group_nonempty(s.drop_first(), k, w - 1);
    }
}

/// The distinct source keys of the store, in first-merge order.
pub open spec fn distinct_keys(s: Seq<AnalyzedNotification>) -> Seq<Seq<char>>
    decreases s.len(),
{
    if s.len() == 0 {
        Seq::empty()
    } else {
        let rest = distinct_keys(s.drop_last());
        if rest.contains(s.last().bundle_id@) {
            rest
        } else {
            rest.push(s.last().bundle_id@)
        }
    }
}

pub proof fn lemma_distinct_keys_occur(s: Seq<AnalyzedNotification>)
    ensures
        forall|t: int|
            0 <= t < distinct_keys(s).len() ==> exists|i: int|
                0 <= i < s.len() && s[i].bundle_id@ == #[trigger] distinct_keys(s)[t],
    decreases s.len(),
{
    if s.len() > 0 {
        lemma_distinct_keys_occur(s.drop_last());
        let rest = distinct_keys(s.drop_last());
        assert forall|t: int|
            0 <= t < distinct_keys(s).len() implies exists|i: int|
            0 <= i < s.len() && s[i].bundle_id@ == #[trigger] distinct_keys(s)[t] by {
            if t < rest.len() {
                let i = choose|i: int|
                    0 <= i < s.drop_last().len() && s.drop_last()[i].bundle_id@ == rest[t];
                assert(s[i] == s.drop_last()[i]);
                assert(s[i].bundle_id@ == distinct_keys(s)[t]);
            } else {
                assert(distinct_keys(s)[t] == s.last().bundle_id@);
                assert(s[s.len() - 1].bundle_id@ == distinct_keys(s)[t]);
            }
        }
    }
}

/// The time of a group's newest member.
pub open spec fn group_ts(s: Seq<AnalyzedNotification>, k: Seq<char>) -> i64 {
    group_seq(s, k)[0].timestamp
}

/// Whether the group of key `a` is presented before that of key `b`: newer
/// first, ties broken by ascending key.
pub open spec fn group_before(s: Seq<AnalyzedNotification>, a: Seq<char>, b: Seq<char>) -> bool {
    group_ts(s, a) > group_ts(s, b) || (group_ts(s, a) == group_ts(s, b)
        && crate::textutil::lex_lt(a, b))
}

/// Insert a key into a run ordered by `group_before`: it lands after every
/// key that is presented before it.
pub open spec fn ins_key(acc: Seq<Seq<char>>, k: Seq<char>, s: Seq<AnalyzedNotification>) -> Seq<
    Seq<char>,
>
    decreases acc.len(),
{
    if acc.len() == 0 {
        seq![k]
    } else if group_before(s, acc[0], k) {
        seq![acc[0]] + ins_key(acc.drop_first(), k, s)
    } else {
        seq![k] + acc
    }
}

proof fn lemma_ins_key_at(acc: Seq<Seq<char>>, k: Seq<char>, s: Seq<AnalyzedNotification>, p: int)
    requires
        0 <= p <= acc.len(),
        forall|q: int| 0 <= q < p ==> group_before(s, acc[q], k),
        p == acc.len() || !group_before(s, acc[p], k),
    ensures
        ins_key(acc, k, s) == acc.insert(p, k),
    decreases p,
{
    if p == 0 {
        assert(ins_key(acc, k, s) =~= acc.insert(0, k));
    } else {
        assert(group_before(s, acc[0], k));
        lemma_ins_key_at(acc.drop_first(), k, s, p - 1);
        assert(ins_key(acc, k, s) =~= acc.insert(p, k));
    }
}

/// The keys in presentation order: each distinct key inserted in turn.
pub open spec fn ordered_keys_aux(keys: Seq<Seq<char>>, s: Seq<AnalyzedNotification>) -> Seq<
    Seq<char>,
>
    decreases keys.len(),
{
    if keys.len() == 0 {
        Seq::empty()
    } else {
        ins_key(ordered_keys_aux(keys.drop_last(), s), keys.last(), s)
    }
}

/// The presentation order of the store's group keys.
pub open spec fn ordered_keys(s: Seq<AnalyzedNotification>) -> Seq<Seq<char>> {
    ordered_keys_aux(distinct_keys(s), s)
}

/// Pointwise rendering of stored entries as grouped entries.
pub open spec fn ui_seq_matches(
    us: Seq<UiNotification>,
    ans: Seq<AnalyzedNotification>,
) -> bool {
    us.len() == ans.len() && forall|i: int|
        0 <= i < us.len() ==> crate::models::ui_matches(us[i], ans[i])
}

/// One presented group renders its key's entries, newest first, carries the
/// newest member's display name, and has no inline icon.
pub open spec fn group_entry_ok(g: UiNotificationGroup, s: Seq<AnalyzedNotification>) -> bool {
    &&& ui_seq_matches(g.notifications@, group_seq(s, g.bundle_id@))
    &&& group_seq(s, g.bundle_id@).len() > 0
    &&& g.app_name@ == group_seq(s, g.bundle_id@)[0].app_name@
    &&& g.icon_base64 is None
}

/// The whole grouped view: one group per distinct key, in presentation
/// order, each rendered from the store.
pub open spec fn grouped_view_ok(
    r: Seq<UiNotificationGroup>,
    s: Seq<AnalyzedNotification>,
) -> bool {
    &&& r.len() == ordered_keys(s).len()
    &&& forall|g: int|
        0 <= g < r.len() ==> r[g].bundle_id@ == ordered_keys(s)[g] && group_entry_ok(r[g], s)
}

/// The keys of a run of groups, in order.
pub open spec fn gkeys(r: Seq<UiNotificationGroup>) -> Seq<Seq<char>> {
    r.map_values(|g: UiNotificationGroup| g.bundle_id@)
}

proof fn lemma_gkeys_insert(r: Seq<UiNotificationGroup>, i: int, g: UiNotificationGroup)
    requires
        0 <= i <= r.len(),
    ensures
        gkeys(r.insert(i, g)) =~= gkeys(r).insert(i, g.bundle_id@),
{
    crate::textutil::lemma_insert_index(r, i, g);
    crate::textutil::lemma_insert_index(gkeys(r), i, g.bundle_id@);
}

/// Render one stored entry for presentation.
fn ui_of(a: &AnalyzedNotification) -> (u: UiNotification)
    ensures
        crate::models::ui_matches(u, *a),
{
    UiNotification {
        id: a.id,
        title: a.title.clone(),
        body: a.body.clone(),
        subtitle: a.subtitle.clone(),
        bundle_id: a.bundle_id.clone(),
        app_name: a.app_name.clone(),
        urgency_level: a.urgency,
        urgency_label: a.urgency.label().to_owned(),
        urgency_color: a.urgency.color().to_owned(),
        summary_line: a.summary_line.clone(),
        reason: a.reason.clone(),
        timestamp: a.timestamp,
    }
}


/// Whether group `a` is displayed before group `b`, read off their rendered
/// fields: newer first entry wins, ties go to the lexically smaller key.
fn group_display_before(a: &UiNotificationGroup, b: &UiNotificationGroup) -> (r: bool)
    requires
        a.notifications@.len() > 0,
        b.notifications@.len() > 0,
    ensures
        r == (a.notifications@[0].timestamp > b.notifications@[0].timestamp
            || (a.notifications@[0].timestamp == b.notifications@[0].timestamp
                && crate::textutil::lex_lt(a.bundle_id@, b.bundle_id@))),
{
    let ta = a.notifications[0].timestamp;
    let tb = b.notifications[0].timestamp;
    if ta > tb {
        true
    } else if ta == tb {
        crate::textutil::str_lex_lt(a.bundle_id.as_str(), b.bundle_id.as_str())
    } else {
        false
    }
}

impl NotifyOrchestrator {
    /// The grouped presentation of the store: one group per source key,
    /// entries newest first within each group, groups ordered by their
    /// newest entry, ties by ascending key. A pure projection of the store.
    pub fn notification_groups(&self) -> (r: Vec<UiNotificationGroup>)
        ensures
            grouped_view_ok(r@, self.collected_spec()),
    {
        let ghost sv = self.collected@;
        let n = self.collected.len();

        // the distinct source keys, in first-merge order
        let mut keys: Vec<String> = Vec::new();
        let mut i: usize = 0;
        proof {
            assert(distinct_keys(sv.take(0)) =~= Seq::<Seq<char>>::empty());
            assert(crate::textutil::views_of(keys@) =~= Seq::<Seq<char>>::empty());
        }
        while i < n
            invariant
                0 <= i <= n,
                n == sv.len(),
                self.collected@ == sv,
                crate::textutil::views_of(keys@) == distinct_keys(sv.take(i as int)),
            decreases n - i,
        {
            proof {
                assert(sv.take(i + 1).drop_last() =~= sv.take(i as int));
                assert(sv.take(i + 1).last() == sv[i as int]);
            }
            let item = &self.collected[i];
            let m = keys.len();
            let mut q: usize = 0;
            let mut found = false;
            while q < m
                invariant
                    0 <= q <= m,
                    m == keys@.len(),
                    item.bundle_id@ == sv[i as int].bundle_id@,
                    found == exists|u: int| 0 <= u < q && keys@[u]@ == sv[i as int].bundle_id@,
                decreases m - q,
            {
                if crate::textutil::str_eq(keys[q].as_str(), item.bundle_id.as_str()) {
                    found = true;
                }
                q = q + 1;
            }
            let ghost old_keys = keys@;
            if !found {
                keys.push(item.bundle_id.clone());
            }
            proof {
                let b = sv[i as int].bundle_id@;
                let vw = crate::textutil::views_of(old_keys);
                if found {
                    let u = choose|u: int| 0 <= u < old_keys.len() && old_keys[u]@ == b;
                    assert(vw[u] == b);
                    assert(vw.contains(b));
                    assert(keys@ == old_keys);
                } else {
                    if vw.contains(b) {
                        let u = choose|u: int| 0 <= u < vw.len() && vw[u] == b;
                        assert(old_keys[u]@ == b);
                    }
                    assert(!vw.contains(b));
                    assert(crate::textutil::views_of(keys@) =~= vw.push(b));
                }
            }
            i = i + 1;
        }
        proof {
            assert(sv.take(n as int) =~= sv);
        }

        // each key's group, in key order
        let kn = keys.len();
        let mut built: Vec<UiNotificationGroup> = Vec::new();
        let mut t: usize = 0;
        while t < kn
            invariant
                0 <= t <= kn,
                kn == keys@.len(),
                n == sv.len(),
                self.collected@ == sv,
                crate::textutil::views_of(keys@) == distinct_keys(sv),
                built@.len() == t,
                forall|u: int|
                    0 <= u < t ==> built@[u].bundle_id@ == keys@[u]@ && group_entry_ok(
                        built@[u],
                        sv,
                    ),
            decreases kn - t,
        {
            let k = &keys[t];
            let mut acc: Vec<UiNotification> = Vec::new();
            let mut j: usize = n;
            proof {
                assert(sv.skip(n as int) =~= Seq::<AnalyzedNotification>::empty());
                assert(group_seq(sv.skip(n as int), k@) =~= Seq::<AnalyzedNotification>::empty());
            }
            while j > 0
                invariant
                    0 <= j <= n,
                    n == sv.len(),
                    self.collected@ == sv,
                    ui_seq_matches(acc@, group_seq(sv.skip(j as int), k@)),
                decreases j,
            {
                j = j - 1;
                proof {
                    assert(sv.skip(j as int).drop_first() =~= sv.skip(j + 1));
                    assert(sv.skip(j as int)[0] == sv[j as int]);
                }
                let item = &self.collected[j];
                if crate::textutil::str_eq(item.bundle_id.as_str(), k.as_str()) {
                    let ghost model = group_seq(sv.skip(j + 1), k@);
                    let m2 = acc.len();
                    let mut p: usize = 0;
                    while p < m2 && acc[p].timestamp >= item.timestamp
                        invariant
                            0 <= p <= m2,
                            m2 == acc@.len(),
                            item.timestamp == sv[j as int].timestamp,
                            forall|q2: int|
                                0 <= q2 < p ==> acc@[q2].timestamp >= sv[j as int].timestamp,
                        decreases m2 - p,
                    {
                        p = p + 1;
                    }
                    let ui = ui_of(item);
                    let ghost uie = ui;
                    let ghost old_acc = acc@;
                    acc.insert(p, ui);
                    proof {
                        assert(old_acc.len() == model.len());
                        assert forall|q2: int|
                            0 <= q2 < p implies model[q2].timestamp >= sv[j as int].timestamp by {
                            assert(crate::models::ui_matches(old_acc[q2], model[q2]));
                        }
                        if p < old_acc.len() {
                            assert(crate::models::ui_matches(old_acc[p as int], model[p as int]));
                            assert(model[p as int].timestamp < sv[j as int].timestamp);
                        }
                        lemma_ins_ts_at(model, sv[j as int], p as int);
                        crate::textutil::lemma_insert_index(old_acc, p as int, uie);
                        crate::textutil::lemma_insert_index(model, p as int, sv[j as int]);
                        assert(acc@ == old_acc.insert(p as int, uie));
                        assert forall|q2: int|
                            0 <= q2 < acc@.len() implies crate::models::ui_matches(
                            acc@[q2],
                            ins_ts(model, sv[j as int])[q2],
                        ) by {
                            if q2 < p {
                                assert(acc@[q2] == old_acc[q2]);
                                assert(ins_ts(model, sv[j as int])[q2] == model[q2]);
                            } else if q2 == p {
                                assert(acc@[q2] == uie);
                                assert(ins_ts(model, sv[j as int])[q2] == sv[j as int]);
                            } else {
                                assert(acc@[q2] == old_acc[q2 - 1]);
                                assert(ins_ts(model, sv[j as int])[q2] == model[q2 - 1]);
                            }
                        }
                        assert(ui_seq_matches(acc@, group_seq(sv.skip(j as int), k@)));
                    }
                }
            }
            proof {
                assert(sv.skip(0) =~= sv);
                lemma_distinct_keys_occur(sv);
                assert(crate::textutil::views_of(keys@)[t as int] == keys@[t as int]@);
                assert(distinct_keys(sv)[t as int] == k@);
                let w = choose|i2: int|
                    0 <= i2 < sv.len() && sv[i2].bundle_id@ == distinct_keys(sv)[t as int];
                lemma_group_nonempty(sv, k@, w);
                assert(crate::models::ui_matches(acc@[0], group_seq(sv, k@)[0]));
            }
            let app_name = acc[0].app_name.clone();
            let entry = UiNotificationGroup {
                bundle_id: k.clone(),
                app_name,
                icon_base64: None,
                notifications: acc,
            };
            built.push(entry);
            t = t + 1;
        }

        // order the groups for presentation
        let ghost all = built@;
        let ghost dk = distinct_keys(sv);
        proof {
            assert(gkeys(all) =~= crate::textutil::views_of(keys@));
            assert(dk.take(0) =~= Seq::<Seq<char>>::empty());
            assert(ordered_keys_aux(dk.take(0), sv) =~= Seq::<Seq<char>>::empty());
            assert(gkeys(Seq::<UiNotificationGroup>::empty()) =~= Seq::<Seq<char>>::empty());
        }
        let mut out: Vec<UiNotificationGroup> = Vec::new();
        let mut c: usize = 0;
        while c < kn
            invariant
                0 <= c <= kn,
                kn == all.len(),
                gkeys(all) == dk,
                dk == distinct_keys(sv),
                built@ == all.skip(c as int),
                forall|u: int| 0 <= u < all.len() ==> group_entry_ok(all[u], sv),
                gkeys(out@) == ordered_keys_aux(dk.take(c as int), sv),
                out@.len() == c,
                forall|u: int| 0 <= u < out@.len() ==> group_entry_ok(out@[u], sv),
            decreases kn - c,
        {
            proof {
                assert(all.skip(c as int)[0] == all[c as int]);
                assert(all.skip(c as int).drop_first() =~= all.skip(c + 1));
                assert(group_entry_ok(all[c as int], sv));
            }
            let g = built.remove(0);
            let m3 = out.len();
            let mut p: usize = 0;
            while p < m3 && group_display_before(&out[p], &g)
                invariant
                    0 <= p <= m3,
                    m3 == out@.len(),
                    g == all[c as int],
                    forall|u: int| 0 <= u < out@.len() ==> group_entry_ok(out@[u], sv),
                    group_entry_ok(g, sv),
                    forall|q3: int|
                        0 <= q3 < p ==> group_before(sv, out@[q3].bundle_id@, g.bundle_id@),
                decreases m3 - p,
            {
                proof {
                    let a = out@[p as int];
                    assert(crate::models::ui_matches(
                        a.notifications@[0],
                        group_seq(sv, a.bundle_id@)[0],
                    ));
                    assert(crate::models::ui_matches(
                        g.notifications@[0],
                        group_seq(sv, g.bundle_id@)[0],
                    ));
                }
                p = p + 1;
            }
            proof {
                if p < m3 {
                    let a = out@[p as int];
                    assert(crate::models::ui_matches(
                        a.notifications@[0],
                        group_seq(sv, a.bundle_id@)[0],
                    ));
                    assert(crate::models::ui_matches(
                        g.notifications@[0],
                        group_seq(sv, g.bundle_id@)[0],
                    ));
                    assert(!group_before(sv, a.bundle_id@, g.bundle_id@));
                }
            }
            let ghost old_out = out@;
            let ghost ge = g;
            out.insert(p, g);
            proof {
                assert(out@ == old_out.insert(p as int, ge));
                lemma_gkeys_insert(old_out, p as int, ge);
                assert forall|q3: int|
                    0 <= q3 < p implies group_before(sv, gkeys(old_out)[q3], ge.bundle_id@) by {
                    assert(gkeys(old_out)[q3] == old_out[q3].bundle_id@);
                }
                lemma_ins_key_at(gkeys(old_out), ge.bundle_id@, sv, p as int);
                assert(gkeys(out@) =~= ins_key(gkeys(old_out), ge.bundle_id@, sv));
                assert(dk.take(c + 1).drop_last() =~= dk.take(c as int));
                assert(dk.take(c + 1).last() == dk[c as int]);
                assert(gkeys(all)[c as int] == all[c as int].bundle_id@);
                assert(ge.bundle_id@ == dk[c as int]);
                assert(gkeys(out@) =~= ordered_keys_aux(dk.take(c + 1), sv));
                crate::textutil::lemma_insert_index(old_out, p as int, ge);
                assert forall|u: int|
                    0 <= u < out@.len() implies group_entry_ok(out@[u], sv) by {
                    if u < p {
                        assert(out@[u] == old_out[u]);
                    } else if u == p {
                        assert(out@[u] == ge);
                    } else {
                        assert(out@[u] == old_out[u - 1]);
                    }
                }
            }
            c = c + 1;
        }
        proof {
            assert(dk.take(kn as int) =~= dk);
            assert forall|g2: int|
                0 <= g2 < out@.len() implies out@[g2].bundle_id@ == ordered_keys(sv)[g2]
                && group_entry_ok(out@[g2], sv) by {
                assert(gkeys(out@)[g2] == out@[g2].bundle_id@);
            }
        }
        out
    }
}


pub const POLL_INTERVAL_SECONDS: u64 = 5;

pub const MAX_DUMMY_INSERT_COUNT: usize = 30;

/// The lowest synthetic (negative) identifier in the store, or zero when
/// none is stored: fresh synthetic identifiers count down from here.
pub open spec fn min_neg_id(s: Seq<AnalyzedNotification>) -> int
    decreases s.len(),
{
    if s.len() == 0 {
        0
    } else {
        let m = min_neg_id(s.drop_last());
        if s.last().id < 0 && s.last().id < m {
            s.last().id as int
        } else {
            m
        }
    }
}

pub proof fn lemma_min_neg_id_bounds(s: Seq<AnalyzedNotification>)
    ensures
        min_neg_id(s) <= 0,
        forall|i: int| 0 <= i < s.len() && s[i].id < 0 ==> min_neg_id(s) <= s[i].id,
    decreases s.len(),
{
    if s.len() > 0 {
        lemma_min_neg_id_bounds(s.drop_last());
        assert forall|i: int|
            0 <= i < s.len() && s[i].id < 0 implies min_neg_id(s) <= s[i].id by {
            if i < s.len() - 1 {
                assert(s[i] == s.drop_last()[i]);
            }
        }
    }
}

pub open spec fn dummy_app_key_spec(i: int) -> Seq<char> {
    if i == 0 {
        "com.tinyspeck.slackmacgap"@
    } else if i == 1 {
        "com.apple.mobilemail"@
    } else if i == 2 {
        "com.apple.iCal"@
    } else {
        "com.apple.reminders"@
    }
}

pub open spec fn dummy_app_name_spec(i: int) -> Seq<char> {
    if i == 0 {
        "Slack"@
    } else if i == 1 {
        "Mail"@
    } else if i == 2 {
        "Calendar"@
    } else {
        "Reminders"@
    }
}

fn dummy_app(i: usize) -> (r: (&'static str, &'static str))
    requires
        i < 4,
    ensures
        r.0@ == dummy_app_key_spec(i as int),
        r.1@ == dummy_app_name_spec(i as int),
{
    if i == 0 {
        ("com.tinyspeck.slackmacgap", "Slack")
    } else if i == 1 {
        ("com.apple.mobilemail", "Mail")
    } else if i == 2 {
        ("com.apple.iCal", "Calendar")
    } else {
        ("com.apple.reminders", "Reminders")
    }
}

pub open spec fn dummy_title_spec(i: int) -> Seq<char> {
    if i == 0 {
        "緊急対応が必要"@
    } else if i == 1 {
        "15:00会議の招待更新"@
    } else if i == 2 {
        "レビュー依頼があります"@
    } else if i == 3 {
        "請求書が発行されました"@
    } else if i == 4 {
        "配達予定が更新されました"@
    } else {
        "セキュリティ警告"@
    }
}

pub open spec fn dummy_body_spec(i: int) -> Seq<char> {
    if i == 0 {
        "プロダクションエラー率が急上昇しています。"@
    } else if i == 1 {
        "会議URLが新しいリンクに変更されました。"@
    } else if i == 2 {
        "PR #128 のレビュー依頼が届いています。"@
    } else if i == 3 {
        "今月分の請求書を確認してください。"@
    } else if i == 4 {
        "荷物の到着予定時刻が変更されました。"@
    } else {
        "未確認のログイン試行を検出しました。"@
    }
}

pub open spec fn dummy_reason_spec(i: int) -> Seq<char> {
    if i == 0 {
        "監視通知で即時確認が必要なパターン"@
    } else if i == 1 {
        "本日中に確認すべき更新"@
    } else if i == 2 {
        "作業中断の優先度は中程度"@
    } else if i == 3 {
        "期限前に確認すればよい通知"@
    } else if i == 4 {
        "状況把握のための一般通知"@
    } else {
        "アカウント保護のため早め対応"@
    }
}

pub open spec fn dummy_urgency_spec(i: int) -> UrgencyLevel {
    if i == 0 {
        UrgencyLevel::Critical
    } else if i == 1 {
        UrgencyLevel::High
    } else if i == 2 {
        UrgencyLevel::Medium
    } else if i == 3 {
        UrgencyLevel::Low
    } else if i == 4 {
        UrgencyLevel::Low
    } else {
        UrgencyLevel::High
    }
}

fn dummy_sample(i: usize) -> (r: (&'static str, &'static str, &'static str, UrgencyLevel))
    requires
        i < 6,
    ensures
        r.0@ == dummy_title_spec(i as int),
        r.1@ == dummy_body_spec(i as int),
        r.2@ == dummy_reason_spec(i as int),
        r.3 == dummy_urgency_spec(i as int),
{
    if i == 0 {
        (
            "緊急対応が必要",
            "プロダクションエラー率が急上昇しています。",
            "監視通知で即時確認が必要なパターン",
            UrgencyLevel::Critical,
        )
    } else if i == 1 {
        (
            "15:00会議の招待更新",
            "会議URLが新しいリンクに変更されました。",
            "本日中に確認すべき更新",
            UrgencyLevel::High,
        )
    } else if i == 2 {
        (
            "レビュー依頼があります",
            "PR #128 のレビュー依頼が届いています。",
            "作業中断の優先度は中程度",
            UrgencyLevel::Medium,
        )
    } else if i == 3 {
        (
            "請求書が発行されました",
            "今月分の請求書を確認してください。",
            "期限前に確認すればよい通知",
            UrgencyLevel::Low,
        )
    } else if i == 4 {
        (
            "配達予定が更新されました",
            "荷物の到着予定時刻が変更されました。",
            "状況把握のための一般通知",
            UrgencyLevel::Low,
        )
    } else {
        (
            "セキュリティ警告",
            "未確認のログイン試行を検出しました。",
            "アカウント保護のため早め対応",
            UrgencyLevel::High,
        )
    }
}

/// Simulated ages of the synthetic entries, in seconds.
pub open spec fn dummy_offset_spec(i: int) -> int {
    if i == 0 {
        30
    } else if i == 1 {
        180
    } else if i == 2 {
        600
    } else if i == 3 {
        1800
    } else if i == 4 {
        3600
    } else if i == 5 {
        7200
    } else if i == 6 {
        43200
    } else {
        86400
    }
}

fn dummy_offset(i: usize) -> (r: i64)
    requires
        i < 8,
    ensures
        r == dummy_offset_spec(i as int),
        0 <= r <= 86400,
{
    if i == 0 {
        30
    } else if i == 1 {
        180
    } else if i == 2 {
        600
    } else if i == 3 {
        1800
    } else if i == 4 {
        3600
    } else if i == 5 {
        7200
    } else if i == 6 {
        43200
    } else {
        86400
    }
}

/// The `j`-th synthetic entry of one injection: a fresh identifier counting
/// down from `start`, sample fields cycling through the fixed pools, and a
/// simulated age taken off `now`.
pub open spec fn dummy_view(start: int, now: i64, j: int) -> AnalyzedView {
    AnalyzedView {
        id: (start - 1 - j) as i64,
        title: dummy_title_spec(j % 6),
        body: dummy_body_spec(j % 6),
        subtitle: "Dummy"@,
        bundle_id: dummy_app_key_spec(j % 4),
        app_name: dummy_app_name_spec(j % 4),
        urgency: dummy_urgency_spec(j % 6),
        summary_line: dummy_title_spec(j % 6),
        reason: dummy_reason_spec(j % 6),
        timestamp: (now - dummy_offset_spec(j % 8)) as i64,
    }
}

impl NotifyOrchestrator {
    /// Append `count` synthetic entries with fresh, strictly decreasing
    /// negative identifiers that collide neither with source identifiers nor
    /// with each other. The bounds keep the fresh identifiers and simulated
    /// times inside the machine range.
    pub fn inject_dummy_notifications(&mut self, count: usize, now: i64) -> (r: usize)
        requires
            min_neg_id(old(self).collected_spec()) - count >= i64::MIN,
            now >= i64::MIN + 86400,
        ensures
            r == count,
            final(self).collected_spec().len() == old(self).collected_spec().len() + count,
            final(self).collected_spec().take(old(self).collected_spec().len() as int) == old(
                self,
            ).collected_spec(),
            forall|j: int|
                0 <= j < count ==> final(self).collected_spec()[old(
                    self,
                ).collected_spec().len() + j]@ == dummy_view(
                    min_neg_id(old(self).collected_spec()),
                    now,
                    j,
                ),
            final(self).cursor_spec() == old(self).cursor_spec(),
            final(self).reader_spec() == old(self).reader_spec(),
            final(self).detector_spec() == old(self).detector_spec(),
            final(self).prompts_spec() == old(self).prompts_spec(),
            final(self).ignored_spec() == old(self).ignored_spec(),
            final(self).was_focused_spec() == old(self).was_focused_spec(),
    {
        let ghost sv = old(self).collected_spec();
        let n = self.collected.len();
        let mut next: i64 = 0;
        let mut i: usize = 0;
        proof {
            assert(min_neg_id(sv.take(0)) == 0);
        }
        while i < n
            invariant
                0 <= i <= n,
                n == sv.len(),
                sv == old(self).collected_spec(),
                *self == *old(self),
                self.collected@ == sv,
                next as int == min_neg_id(sv.take(i as int)),
                next <= 0,
            decreases n - i,
        {
            proof {
                assert(sv.take(i + 1).drop_last() =~= sv.take(i as int));
                assert(sv.take(i + 1).last() == sv[i as int]);
            }
            let item_id = self.collected[i].id;
            if item_id < 0 && item_id < next {
                next = item_id;
            }
            i = i + 1;
        }
        proof {
            assert(sv.take(n as int) =~= sv);
        }
        let ghost start = min_neg_id(sv);
        let mut j: usize = 0;
        while j < count
            invariant
                0 <= j <= count,
                start == min_neg_id(old(self).collected_spec()),
                start - count >= i64::MIN,
                now >= i64::MIN + 86400,
                sv == old(self).collected_spec(),
                next as int == start - j,
                self.reader_spec() == old(self).reader_spec(),
                self.detector_spec() == old(self).detector_spec(),
                self.prompts_spec() == old(self).prompts_spec(),
                self.ignored_spec() == old(self).ignored_spec(),
                self.cursor_spec() == old(self).cursor_spec(),
                self.was_focused_spec() == old(self).was_focused_spec(),
                self.collected@.len() == sv.len() + j,
                self.collected@.take(sv.len() as int) == sv,
                forall|t: int|
                    0 <= t < j ==> self.collected@[sv.len() + t]@ == dummy_view(start, now, t),
            decreases count - j,
        {
            next = next - 1;
            let (bundle_id, app_name) = dummy_app(j % 4);
            let (title, body, reason, urgency) = dummy_sample(j % 6);
            let offset = dummy_offset(j % 8);
            let ghost before = self.collected@;
            self.collected.push(
                AnalyzedNotification {
                    id: next,
                    title: String::from_str(title),
                    body: String::from_str(body),
                    subtitle: String::from_str("Dummy"),
                    bundle_id: String::from_str(bundle_id),
                    app_name: String::from_str(app_name),
                    urgency,
                    summary_line: String::from_str(title),
                    reason: String::from_str(reason),
                    timestamp: now - offset,
                },
            );
            proof {
                assert(self.collected@.take(sv.len() as int) =~= before.take(sv.len() as int));
                assert((j % 4) as int == (j as int) % 4);
                assert((j % 6) as int == (j as int) % 6);
                assert((j % 8) as int == (j as int) % 8);
                assert(self.collected@[sv.len() + j]@ == dummy_view(start, now, j as int));
            }
            j = j + 1;
        }
        count
    }
}

/// Appending entries whose identifiers are fresh keeps the store free of
/// duplicate identifiers.
pub proof fn lemma_merge_keeps_ids_unique(
    s: Seq<AnalyzedNotification>,
    batch: Seq<AnalyzedNotification>,
)
    requires
        ids_unique(s),
        ids_unique(batch),
        forall|i: int, j: int|
            0 <= i < s.len() && 0 <= j < batch.len() ==> s[i].id != batch[j].id,
    ensures
        ids_unique(s + batch),
{
    assert forall|i: int, j: int|
        0 <= i < j < (s + batch).len() implies (s + batch)[i].id != (s + batch)[j].id by {
        if i < s.len() && j < s.len() {
            assert((s + batch)[i] == s[i]);
            assert((s + batch)[j] == s[j]);
        } else if i < s.len() {
            assert((s + batch)[i] == s[i]);
            assert((s + batch)[j] == batch[j - s.len()]);
        } else {
            assert((s + batch)[i] == batch[i - s.len()]);
            assert((s + batch)[j] == batch[j - s.len()]);
        }
    }
}

/// One injection keeps identifiers unique: the synthetic identifiers count
/// down strictly below every identifier already stored.
pub proof fn lemma_inject_keeps_ids_unique(
    s0: Seq<AnalyzedNotification>,
    s1: Seq<AnalyzedNotification>,
    count: int,
    now: i64,
)
    requires
        ids_unique(s0),
        0 <= count,
        min_neg_id(s0) - count >= i64::MIN,
        s1.len() == s0.len() + count,
        s1.take(s0.len() as int) == s0,
        forall|j: int| 0 <= j < count ==> s1[s0.len() + j]@ == dummy_view(min_neg_id(s0), now, j),
    ensures
        ids_unique(s1),
{
    lemma_min_neg_id_bounds(s0);
    let start = min_neg_id(s0);
    assert forall|i: int, j: int|
        0 <= i < j < s1.len() implies s1[i].id != s1[j].id by {
        if j < s0.len() {
            assert(s1[i] == s1.take(s0.len() as int)[i]);
            assert(s1[j] == s1.take(s0.len() as int)[j]);
        } else if i < s0.len() {
            assert(s1[i] == s1.take(s0.len() as int)[i]);
            assert(s1[i] == s0[i]);
            let ja = j - s0.len();
            assert(s1[s0.len() + ja]@ == dummy_view(start, now, ja));
            assert(s1[j].id == (start - 1 - ja) as i64);
            assert(start - 1 - ja < start <= 0);
            if s0[i].id < 0 {
                assert(start <= s0[i].id);
            }
        } else {
            let ia = i - s0.len();
            let ja = j - s0.len();
            assert(s1[s0.len() + ia]@ == dummy_view(start, now, ia));
            assert(s1[s0.len() + ja]@ == dummy_view(start, now, ja));
            assert(s1[i].id == (start - 1 - ia) as i64);
            assert(s1[j].id == (start - 1 - ja) as i64);
        }
    }
}

/// A record consumed by an earlier cycle (its identifier at or below the
/// cursor then) is never presented again by a later batch that respects the
/// source contract of returning only records past the cursor, since the
/// cursor never moves backward. So no record is classified twice, and a
/// record read under the Inactive mode — which the read phase drops — can
/// never reach the store through any later cycle either.
pub proof fn lemma_consumed_records_not_reread(
    cursor1: i64,
    cursor2: i64,
    earlier: Seq<Notification>,
    later: Seq<Notification>,
)
    requires
        forall|i: int| 0 <= i < earlier.len() ==> earlier[i].rowid <= cursor1,
        cursor1 <= cursor2,
        forall|i: int| 0 <= i < later.len() ==> later[i].rowid > cursor2,
    ensures
        forall|i: int, j: int|
            0 <= i < earlier.len() && 0 <= j < later.len() ==> earlier[i].rowid
                != later[j].rowid,
{
}

/// View-level equality of two rendered notifications.
pub open spec fn ui_view_eq(a: UiNotification, b: UiNotification) -> bool {
    &&& a.id == b.id
    &&& a.title@ == b.title@
    &&& a.body@ == b.body@
    &&& a.subtitle@ == b.subtitle@
    &&& a.bundle_id@ == b.bundle_id@
    &&& a.app_name@ == b.app_name@
    &&& a.urgency_level == b.urgency_level
    &&& a.urgency_label@ == b.urgency_label@
    &&& a.urgency_color@ == b.urgency_color@
    &&& a.summary_line@ == b.summary_line@
    &&& a.reason@ == b.reason@
    &&& a.timestamp == b.timestamp
}

/// View-level equality of two rendered groups.
pub open spec fn group_view_eq(a: UiNotificationGroup, b: UiNotificationGroup) -> bool {
    &&& a.bundle_id@ == b.bundle_id@
    &&& a.app_name@ == b.app_name@
    &&& a.icon_base64 is None == b.icon_base64 is None
    &&& a.notifications@.len() == b.notifications@.len()
    &&& forall|i: int|
        0 <= i < a.notifications@.len() ==> ui_view_eq(a.notifications@[i], b.notifications@[i])
}

/// The grouped view is a pure projection of the store: any two views taken
/// of one store state without an intervening change are identical.
pub proof fn lemma_grouped_view_deterministic(
    r1: Seq<UiNotificationGroup>,
    r2: Seq<UiNotificationGroup>,
    s: Seq<AnalyzedNotification>,
)
    requires
        grouped_view_ok(r1, s),
        grouped_view_ok(r2, s),
    ensures
        r1.len() == r2.len(),
        forall|g: int| 0 <= g < r1.len() ==> group_view_eq(r1[g], r2[g]),
{
    assert forall|g: int| 0 <= g < r1.len() implies group_view_eq(r1[g], r2[g]) by {
        assert(r1[g].bundle_id@ == ordered_keys(s)[g]);
        assert(r2[g].bundle_id@ == ordered_keys(s)[g]);
        let gs = group_seq(s, ordered_keys(s)[g]);
        assert forall|i: int|
            0 <= i < r1[g].notifications@.len() implies ui_view_eq(
            r1[g].notifications@[i],
            r2[g].notifications@[i],
        ) by {
            assert(crate::models::ui_matches(r1[g].notifications@[i], gs[i]));
            assert(crate::models::ui_matches(r2[g].notifications@[i], gs[i]));
        }
    }
}

/// An emptied store presents nothing: its grouped view is empty and every
/// tier counts zero.
pub proof fn lemma_empty_store_presents_nothing(r: Seq<UiNotificationGroup>)
    requires
        grouped_view_ok(r, Seq::<AnalyzedNotification>::empty()),
    ensures
        r.len() == 0,
        forall|u: UrgencyLevel| count_urgency(Seq::<AnalyzedNotification>::empty(), u) == 0,
{
    assert(distinct_keys(Seq::<AnalyzedNotification>::empty()) =~= Seq::<Seq<char>>::empty());
    assert(ordered_keys(Seq::<AnalyzedNotification>::empty()) =~= Seq::<Seq<char>>::empty());
}

} // verus!
