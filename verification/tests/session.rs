use hjlib::session::{apply_close, audit_fails, handon_lines, new_handoff, reconcile_report_lines};
use hjlib::{
    apply_handoff_rows, build_state, classify_items, collect_review_on_wake, format_triage_item,
    rewrite_args_for_alias, CommitRef, ExtraEntry, Handoff, HandoffItem, HandoffRow, HandoffState, LogEntry,
    ReconcileMode, ReconcileReport,
};

#[test]
fn sqlite_rows_override_handoff_status() {
    let mut handoff = Handoff {
        items: vec![HandoffItem {
            id: "hj-1".into(),
            priority: Some("P1".into()),
            status: Some("open".into()),
            ..HandoffItem::default()
        }],
        ..Handoff::default()
    };
    let rows = vec![HandoffRow {
        id: "hj-1".into(),
        priority: "P0".into(),
        status: "blocked".into(),
        completed: "2026-04-16".into(),
        updated: "2026-04-16".into(),
    }];
    apply_handoff_rows(&mut handoff, &rows);
    let item = &handoff.items[0];
    assert_eq!(item.priority.as_deref(), Some("P0"));
    assert_eq!(item.status.as_deref(), Some("blocked"));
    assert_eq!(item.completed.as_deref(), Some("2026-04-16"));
}

#[test]
fn review_on_wake_finds_unreviewed_human_edits() {
    let handoff = Handoff {
        items: vec![HandoffItem {
            id: "hj-1".into(),
            title: "Ship handon".into(),
            extra: vec![ExtraEntry {
                date: Some("2026-04-16".into()),
                entry_type: Some("human-edit".into()),
                field: Some("title".into()),
                value: Some("Ship handon".into()),
                reviewed: None,
                note: Some("Needs confirmation.".into()),
                ..ExtraEntry::default()
            }],
            ..HandoffItem::default()
        }],
        ..Handoff::default()
    };
    let review = collect_review_on_wake(&handoff);
    assert_eq!(review.len(), 2);
    assert!(review[0].contains("[hj-1]"));
    assert!(review[1].contains("Needs confirmation."));
}

#[test]
fn review_line_text_and_reviewed_edits() {
    let handoff = Handoff {
        items: vec![HandoffItem {
            id: "hj-2".into(),
            title: "T".into(),
            extra: vec![
                ExtraEntry { entry_type: Some("human-edit".into()), reviewed: Some("yes".into()), ..ExtraEntry::default() },
                ExtraEntry { entry_type: Some("human-edit".into()), reviewed: Some(String::new()), ..ExtraEntry::default() },
            ],
            ..HandoffItem::default()
        }],
        ..Handoff::default()
    };
    assert_eq!(
        collect_review_on_wake(&handoff),
        vec!["- [hj-2] \"T\" — human edited `unknown` -> `unknown` on unknown".to_string()]
    );
}

#[test]
fn rows_apply_to_the_first_item_with_the_id_only() {
    let mut handoff = Handoff {
        items: vec![
            HandoffItem { id: "a".into(), status: Some("open".into()), ..HandoffItem::default() },
            HandoffItem { id: "a".into(), status: Some("open".into()), ..HandoffItem::default() },
        ],
        ..Handoff::default()
    };
    let rows = vec![HandoffRow {
        id: "a".into(),
        priority: String::new(),
        status: "done".into(),
        completed: String::new(),
        updated: "x".into(),
    }];
    apply_handoff_rows(&mut handoff, &rows);
    assert_eq!(handoff.items[0].status.as_deref(), Some("done"));
    assert_eq!(handoff.items[0].priority, None);
    assert_eq!(handoff.items[1].status.as_deref(), Some("open"));
}

#[test]
fn triage_buckets_by_inferred_priority() {
    let handoff = Handoff {
        items: vec![
            HandoffItem { id: "b".into(), status: Some("open".into()), title: "Explore".into(), ..HandoffItem::default() },
            HandoffItem { id: "a".into(), status: Some("blocked".into()), title: "CI broken".into(), ..HandoffItem::default() },
            HandoffItem {
                id: "c".into(),
                status: Some("open".into()),
                priority: Some("P1".into()),
                name: Some("wire".into()),
                title: "Wire it".into(),
                description: Some("soon".into()),
                ..HandoffItem::default()
            },
            HandoffItem { id: "d".into(), status: Some("done".into()), title: "urgent".into(), ..HandoffItem::default() },
        ],
        ..Handoff::default()
    };
    let t = classify_items(&handoff);
    assert_eq!(t.p0, vec!["- [a] [-] \"CI broken\" -> blocked".to_string()]);
    assert_eq!(t.p1, vec!["- [c] [wire] \"Wire it\" -> open: soon".to_string()]);
    assert_eq!(t.p2, vec!["- [b] [-] \"Explore\" -> open".to_string()]);
    let lines = handon_lines("/repo", None, &Vec::new(), &t);
    assert_eq!(lines[0], "## Handoff Triage — /repo");
    assert_eq!(lines[1], "");
    assert_eq!(lines[2], "P0:");
    assert_eq!(lines[3], "  - [a] [-] \"CI broken\" -> blocked");
    assert!(!lines.contains(&"No open handoff items.".to_string()));
}

#[test]
fn handon_reports_state_review_and_empty_buckets() {
    let state = HandoffState {
        branch: Some("main".into()),
        notes: Some("Keep going".into()),
        touched_files: vec!["a.rs".into(), "b.rs".into()],
        ..HandoffState::default()
    };
    let t = classify_items(&Handoff::default());
    let lines = handon_lines("/r", Some(&state), &vec!["- review".to_string()], &t);
    assert_eq!(
        lines,
        vec![
            "## Handoff Triage — /r",
            "Branch: main | Build: unknown | Tests: unknown",
            "Keep going",
            "Recently touched: a.rs, b.rs",
            "",
            "## Review on Wake",
            "- review",
            "",
            "P0:",
            "  - none",
            "P1:",
            "  - none",
            "P2:",
            "  - none",
            "No open handoff items.",
        ]
    );
}

#[test]
fn triage_line_format() {
    let item = HandoffItem { id: "x".into(), title: "T".into(), description: Some(String::new()), ..HandoffItem::default() };
    assert_eq!(format_triage_item(&item), "- [x] [-] \"T\" -> open");
}

#[test]
fn closing_state_prefers_given_values() {
    let existing = HandoffState {
        build: Some("red".into()),
        notes: Some("old".into()),
        last_log: Some("l".into()),
        ..HandoffState::default()
    };
    let s = build_state(Some(existing), "2026-05-02", None, None, Some("green".into()), None, vec!["f".into()]);
    assert_eq!(s.updated.as_deref(), Some("2026-05-02"));
    assert_eq!(s.branch.as_deref(), Some("unknown"));
    assert_eq!(s.build.as_deref(), Some("red"));
    assert_eq!(s.tests.as_deref(), Some("green"));
    assert_eq!(s.notes.as_deref(), Some("old"));
    assert_eq!(s.last_log.as_deref(), Some("l"));
    assert_eq!(s.touched_files, vec!["f".to_string()]);
    let fresh = build_state(None, "d", Some("dev".into()), None, None, None, vec![]);
    assert_eq!(fresh.build.as_deref(), Some("unknown"));
    assert_eq!(fresh.branch.as_deref(), Some("dev"));
}

#[test]
fn close_fills_identity_and_prepends_log() {
    let mut h = Handoff {
        log: vec![LogEntry { summary: "older".into(), ..LogEntry::default() }],
        ..Handoff::default()
    };
    apply_close(&mut h, "Atelier Tools", "2026-05-02", Some("did it".into()), vec![], Some("abc1234".into()));
    assert_eq!(h.project.as_deref(), Some("Atelier Tools"));
    assert_eq!(h.id.as_deref(), Some("atelier"));
    assert_eq!(h.updated.as_deref(), Some("2026-05-02"));
    assert_eq!(h.log.len(), 2);
    assert_eq!(h.log[0].summary, "did it");
    assert_eq!(h.log[0].commits, vec![CommitRef::Sha("abc1234".into())]);
    assert_eq!(h.log[1].summary, "older");
    let mut g = Handoff { project: Some("kept".into()), ..Handoff::default() };
    apply_close(&mut g, "other", "d", None, vec!["x".into()], None);
    assert_eq!(g.project.as_deref(), Some("kept"));
    assert!(g.log.is_empty());
}

#[test]
fn new_handoff_and_audit_outcome() {
    let h = new_handoff("hj", "2026-05-02");
    assert_eq!(h.project.as_deref(), Some("hj"));
    assert_eq!(h.id.as_deref(), Some("hj"));
    assert_eq!(h.updated.as_deref(), Some("2026-05-02"));
    let report = ReconcileReport {
        project: "hj".into(),
        captured_count: 3,
        created_count: 1,
        not_captured: vec![],
        orphaned: vec!["o".into()],
        closed_upstream: vec!["c".into()],
    };
    assert!(audit_fails(ReconcileMode::Audit, &report));
    assert!(!audit_fails(ReconcileMode::Sync, &report));
    let lines = reconcile_report_lines(ReconcileMode::Sync, &report);
    assert_eq!(
        lines,
        vec![
            "Reconciliation — hj",
            "===========================",
            "Captured in backend:      3 items",
            "Created this run:         1 items",
            "Not captured:             0 items",
            "Orphaned backend items:   1 items",
            "Closed upstream:          1 items",
            "Orphaned backend items:",
            "- o",
            "Closed upstream:",
            "- c",
        ]
    );
    assert_eq!(reconcile_report_lines(ReconcileMode::Audit, &report).len(), 10);
}

#[test]
fn alias_names_rewrite_to_subcommands() {
    let args = |v: &[&str]| v.iter().map(|s| s.to_string()).collect::<Vec<String>>();
    assert_eq!(rewrite_args_for_alias(args(&["handoff-detect", "--project"])), args(&["hj", "detect", "--project"]));
    assert_eq!(rewrite_args_for_alias(args(&["/usr/bin/handon"])), args(&["hj", "handon"]));
    assert_eq!(rewrite_args_for_alias(args(&["handover"])), args(&["hj", "handover"]));
    assert_eq!(rewrite_args_for_alias(args(&["handoff"])), args(&["hj", "handoff"]));
    assert_eq!(rewrite_args_for_alias(args(&["hj", "refresh"])), args(&["hj", "refresh"]));
    assert_eq!(rewrite_args_for_alias(Vec::new()), args(&["hj"]));
}
