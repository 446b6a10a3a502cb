use hjlib::{
    build_reconcile_plan, Handoff, HandoffItem, LogEntry, ReconcileMode, TodoSnapshot, ValidationWarning,
    FieldMap, YamlValue,
};

fn stray(date: &str) -> HandoffItem {
    let mut f = FieldMap::new();
    f.insert("date".into(), YamlValue::String(date.into()));
    f.insert("note".into(), YamlValue::Bool(true));
    HandoffItem { id: String::new(), extra_fields: f, ..HandoffItem::default() }
}

#[test]
fn repair_twice_moves_nothing_more() {
    let mut h = Handoff {
        items: vec![
            stray("2026-01-01"),
            HandoffItem { id: "a".into(), ..HandoffItem::default() },
            stray("2026-03-01"),
        ],
        log: vec![LogEntry { date: Some("2026-02-01".into()), summary: "mid".into(), ..LogEntry::default() }],
        ..Handoff::default()
    };
    let first = h.repair();
    assert_eq!(
        first,
        vec![
            "moved log entry (date: 2026-01-01) from items[0] to log".to_string(),
            "moved log entry (date: 2026-03-01) from items[2] to log".to_string(),
        ]
    );
    let dates: Vec<Option<&str>> = h.log.iter().map(|e| e.date.as_deref()).collect();
    assert_eq!(dates, vec![Some("2026-03-01"), Some("2026-02-01"), Some("2026-01-01")]);
    assert!(h.log[0].extra.contains_key("note"));
    assert!(!h.log[0].extra.contains_key("date"));
    assert!(h.validate().iter().all(|w| !matches!(w, ValidationWarning::LogEntryInItems { .. })));
    let second = h.repair();
    assert!(second.is_empty());
    assert_eq!(h.items.len(), 1);
    assert_eq!(h.log.len(), 3);
}

#[test]
fn log_sort_is_stable_for_equal_dates() {
    let mut h = Handoff {
        log: vec![
            LogEntry { date: None, summary: "undated".into(), ..LogEntry::default() },
            LogEntry { date: Some("d".into()), summary: "first".into(), ..LogEntry::default() },
            LogEntry { date: Some("d".into()), summary: "second".into(), ..LogEntry::default() },
        ],
        ..Handoff::default()
    };
    h.repair();
    let s: Vec<&str> = h.log.iter().map(|e| e.summary.as_str()).collect();
    assert_eq!(s, vec!["first", "second", "undated"]);
}

#[test]
fn warnings_read_as_sentences() {
    assert_eq!(
        ValidationWarning::ItemMissingId { index: 3, title: "t".into() }.to_string(),
        "items[3]: missing id field (title: 't')"
    );
    assert_eq!(
        ValidationWarning::LogEntryInItems { index: 0, date: "d".into() }.to_string(),
        "items[0]: looks like a log entry (date: d)"
    );
    assert_eq!(ValidationWarning::LogEntryMissingSummary { index: 12 }.to_string(), "log[12]: missing summary");
    assert_eq!(
        ValidationWarning::DuplicateItemId { id: "x".into(), indices: vec![0, 2] }.to_string(),
        "duplicate item id 'x' at indices [0, 2]"
    );
}

#[test]
fn duplicate_groups_are_ordered_by_id() {
    let item = |id: &str| HandoffItem { id: id.into(), ..HandoffItem::default() };
    let h = Handoff {
        items: vec![item("b"), item("a"), item("b"), item("a"), item("c"), item("a")],
        log: vec![LogEntry::default()],
        ..Handoff::default()
    };
    assert_eq!(
        h.validate(),
        vec![
            ValidationWarning::DuplicateItemId { id: "a".into(), indices: vec![1, 3, 5] },
            ValidationWarning::DuplicateItemId { id: "b".into(), indices: vec![0, 2] },
            ValidationWarning::LogEntryMissingSummary { index: 0 },
        ]
    );
}

#[test]
fn every_active_item_is_accounted_for() {
    let item = |id: &str, title: &str| HandoffItem {
        id: id.into(),
        status: Some("open".into()),
        title: title.into(),
        ..HandoffItem::default()
    };
    let h = Handoff { items: vec![item("1", "A"), item("2", "B"), item("3", "C")], ..Handoff::default() };
    let snap = TodoSnapshot { active_titles: vec!["A".into()], closed_titles: vec!["B".into()] };
    let audit = build_reconcile_plan("p", &h, &snap, ReconcileMode::Audit);
    assert_eq!(
        audit.report.captured_count + audit.report.not_captured.len() + audit.report.closed_upstream.len(),
        3
    );
    assert!(audit.creates.is_empty());
    let sync = build_reconcile_plan("p", &h, &snap, ReconcileMode::Sync);
    assert_eq!(sync.report.captured_count + sync.report.closed_upstream.len(), 3);
    assert_eq!(sync.creates.len(), sync.report.created_count);
}
