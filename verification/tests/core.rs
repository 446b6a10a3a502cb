use hjlib::{
    build_reconcile_plan, default_id_prefix, infer_priority, sanitize_name, titleize_slug, CommitRef,
    FieldMap, Handoff, HandoffItem, LogEntry, ReconcileMode, TodoSnapshot, ValidationWarning, YamlValue,
};

fn open_item(id: &str, title: &str) -> HandoffItem {
    HandoffItem {
        id: id.into(),
        status: Some("open".into()),
        title: title.into(),
        ..HandoffItem::default()
    }
}

fn item_with_status(id: &str, status: &str) -> HandoffItem {
    HandoffItem {
        id: id.into(),
        status: Some(status.into()),
        title: format!("Task {id}"),
        ..HandoffItem::default()
    }
}

fn handoff_with_items(items: Vec<HandoffItem>) -> Handoff {
    Handoff { items, ..Handoff::default() }
}

fn s(v: &str) -> YamlValue {
    YamlValue::String(v.to_string())
}

fn fields(entries: Vec<(&str, YamlValue)>) -> FieldMap {
    let mut m = FieldMap::new();
    for (k, v) in entries {
        m.insert(k.to_string(), v);
    }
    m
}

#[test]
fn sanitize_project_name() {
    assert_eq!(sanitize_name("My Project/CLI"), "my-project-cli");
}

#[test]
fn lib_sanitize_project_name() {
    assert_eq!(sanitize_name("My Project/CLI"), "my-project-cli");
}

#[test]
fn default_prefix_uses_first_seven_chars() {
    assert_eq!(default_id_prefix("atelier"), "atelier");
    assert_eq!(default_id_prefix("sanctum"), "sanctum");
}

#[test]
fn lib_default_prefix_uses_first_seven_chars() {
    assert_eq!(default_id_prefix("atelier"), "atelier");
    assert_eq!(default_id_prefix("sanctum"), "sanctum");
}

#[test]
fn doob_title_prefers_slug() {
    let item = HandoffItem {
        id: "x-1".into(),
        name: Some("wire-render-pass".into()),
        status: Some("blocked".into()),
        title: "ignored".into(),
        ..HandoffItem::default()
    };
    assert_eq!(titleize_slug("wire-render-pass"), "Wire Render Pass");
    assert_eq!(item.doob_title(), "Wire Render Pass [BLOCKED]");
}

#[test]
fn lib_doob_title_prefers_slug() {
    let item = HandoffItem {
        id: "x-1".into(),
        name: Some("wire-render-pass".into()),
        status: Some("blocked".into()),
        title: "ignored".into(),
        ..HandoffItem::default()
    };
    assert_eq!(titleize_slug("wire-render-pass"), "Wire Render Pass");
    assert_eq!(item.doob_title(), "Wire Render Pass [BLOCKED]");
}

#[test]
fn infer_priority_uses_signal_words() {
    assert_eq!(infer_priority("CI broken", None), "P0");
    assert_eq!(infer_priority("Implement handup parity", None), "P1");
    assert_eq!(infer_priority("Explore someday", None), "P2");
}

#[test]
fn lib_infer_priority_uses_signal_words() {
    assert_eq!(infer_priority("CI broken", None), "P0");
    assert_eq!(infer_priority("Implement handup parity", None), "P1");
    assert_eq!(infer_priority("Explore someday", None), "P2");
}

fn backend_agnostic_case() {
    let handoff = Handoff {
        project: Some("hj".into()),
        items: vec![
            HandoffItem {
                id: "hj-1".into(),
                priority: Some("P1".into()),
                status: Some("open".into()),
                title: "Already tracked".into(),
                ..HandoffItem::default()
            },
            HandoffItem {
                id: "hj-2".into(),
                priority: Some("P2".into()),
                status: Some("open".into()),
                title: "Needs create".into(),
                ..HandoffItem::default()
            },
            HandoffItem {
                id: "hj-3".into(),
                priority: Some("P1".into()),
                status: Some("blocked".into()),
                title: "Closed upstream".into(),
                ..HandoffItem::default()
            },
        ],
        ..Handoff::default()
    };
    let snapshot = TodoSnapshot {
        active_titles: vec!["Already tracked".into(), "Orphaned task".into()],
        closed_titles: vec!["Closed upstream [BLOCKED]".into()],
    };

    let audit = build_reconcile_plan("hj", &handoff, &snapshot, ReconcileMode::Audit);
    assert_eq!(audit.creates.len(), 0);
    assert_eq!(audit.report.captured_count, 1);
    assert_eq!(audit.report.not_captured, vec!["Needs create".to_string()]);
    assert_eq!(audit.report.closed_upstream, vec!["Closed upstream [BLOCKED]".to_string()]);
    assert_eq!(audit.report.orphaned, vec!["Orphaned task".to_string()]);

    let sync = build_reconcile_plan("hj", &handoff, &snapshot, ReconcileMode::Sync);
    assert_eq!(sync.creates.len(), 1);
    assert_eq!(sync.creates[0].title, "Needs create");
    assert_eq!(sync.creates[0].priority.as_deref(), Some("P2"));
    assert_eq!(sync.report.captured_count, 2);
    assert_eq!(sync.report.created_count, 1);
    assert!(sync.report.not_captured.is_empty());
}

#[test]
fn reconcile_plan_is_backend_agnostic() {
    backend_agnostic_case();
}

#[test]
fn lib_reconcile_plan_is_backend_agnostic() {
    backend_agnostic_case();
}

#[test]
fn log_commits_accept_bare_sha_and_object_form() {
    let first = LogEntry::from_yaml_mapping(vec![
        (s("date"), s("20260422.120000")),
        (s("summary"), s("bare sha form")),
        (s("commits"), YamlValue::Sequence(vec![s("abc1234"), s("def5678")])),
    ]);
    let second = LogEntry::from_yaml_mapping(vec![
        (s("date"), s("20260422.130000")),
        (s("summary"), s("object form")),
        (
            s("commits"),
            YamlValue::Sequence(vec![
                YamlValue::Mapping(vec![(s("sha"), s("aaa1111")), (s("branch"), s("main"))]),
                YamlValue::Mapping(vec![(s("sha"), s("bbb2222")), (s("branch"), s("main"))]),
            ]),
        ),
    ]);
    assert_eq!(
        first.commits,
        vec![CommitRef::Sha("abc1234".into()), CommitRef::Sha("def5678".into())]
    );
    assert_eq!(
        second.commits,
        vec![
            CommitRef::Object { sha: "aaa1111".into(), branch: Some("main".into()) },
            CommitRef::Object { sha: "bbb2222".into(), branch: Some("main".into()) },
        ]
    );
    assert_eq!(first.commits[0].sha(), "abc1234");
    assert_eq!(second.commits[0].sha(), "aaa1111");
}

#[test]
fn log_commits_with_session_field_parse() {
    // `7516e53` reads as a number in YAML; its printed form is kept.
    let entry = LogEntry::from_yaml_mapping(vec![
        (s("date"), s("20260509.225051")),
        (s("summary"), s("Session 43: something")),
        (
            s("commits"),
            YamlValue::Sequence(vec![
                YamlValue::Mapping(vec![(s("sha"), s("659f1c2")), (s("branch"), s("main"))]),
                YamlValue::Mapping(vec![
                    (s("sha"), YamlValue::Number("7.516e56".into())),
                    (s("branch"), s("main")),
                ]),
            ]),
        ),
        (s("session"), YamlValue::Number("43".into())),
    ]);
    assert_eq!(entry.commits.len(), 2);
    assert_eq!(entry.commits[0].sha(), "659f1c2");
    assert!(entry.extra.contains_key("session"));
    assert!(!entry.extra.contains_key("commits"));
}

#[test]
fn validate_catches_item_missing_id() {
    let handoff = Handoff {
        items: vec![HandoffItem {
            id: String::new(),
            title: "some task".into(),
            ..HandoffItem::default()
        }],
        ..Handoff::default()
    };
    let warnings = handoff.validate();
    assert_eq!(
        warnings,
        vec![ValidationWarning::ItemMissingId { index: 0, title: "some task".into() }]
    );
}

#[test]
fn validate_catches_log_entry_in_items() {
    let handoff = Handoff {
        items: vec![HandoffItem {
            id: String::new(),
            extra_fields: fields(vec![("date", s("20260424:152652")), ("summary", s("did stuff"))]),
            ..HandoffItem::default()
        }],
        ..Handoff::default()
    };
    let warnings = handoff.validate();
    assert!(warnings.contains(&ValidationWarning::LogEntryInItems {
        index: 0,
        date: "20260424:152652".into()
    }));
}

#[test]
fn validate_catches_duplicate_item_ids() {
    let handoff = Handoff {
        items: vec![
            HandoffItem { id: "hj-1".into(), title: "first".into(), ..HandoffItem::default() },
            HandoffItem { id: "hj-2".into(), title: "unique".into(), ..HandoffItem::default() },
            HandoffItem { id: "hj-1".into(), title: "duplicate".into(), ..HandoffItem::default() },
        ],
        ..Handoff::default()
    };
    let warnings = handoff.validate();
    assert!(warnings.contains(&ValidationWarning::DuplicateItemId {
        id: "hj-1".into(),
        indices: vec![0, 2]
    }));
}

#[test]
fn validate_catches_log_entry_missing_summary() {
    let handoff = Handoff {
        log: vec![LogEntry {
            date: Some("20260424:152652".into()),
            summary: String::new(),
            ..LogEntry::default()
        }],
        ..Handoff::default()
    };
    let warnings = handoff.validate();
    assert_eq!(warnings, vec![ValidationWarning::LogEntryMissingSummary { index: 0 }]);
}

#[test]
fn validate_clean_handoff_returns_empty() {
    let handoff = Handoff {
        items: vec![HandoffItem { id: "hj-1".into(), title: "valid".into(), ..HandoffItem::default() }],
        log: vec![LogEntry {
            date: Some("20260424:152652".into()),
            summary: "did things".into(),
            ..LogEntry::default()
        }],
        ..Handoff::default()
    };
    assert!(handoff.validate().is_empty());
}

#[test]
fn repair_moves_log_entries_from_items_to_log() {
    let extra_fields = fields(vec![
        ("date", s("20260424:152652")),
        ("summary", s("did stuff")),
        ("commits", YamlValue::Sequence(vec![s("abc123")])),
    ]);
    let mut handoff = Handoff {
        items: vec![
            HandoffItem { id: "hj-1".into(), title: "valid".into(), ..HandoffItem::default() },
            HandoffItem { id: String::new(), extra_fields, ..HandoffItem::default() },
        ],
        ..Handoff::default()
    };
    let descriptions = handoff.repair();
    assert_eq!(handoff.items.len(), 1);
    assert_eq!(handoff.items[0].id, "hj-1");
    assert_eq!(handoff.log.len(), 1);
    assert_eq!(handoff.log[0].date.as_deref(), Some("20260424:152652"));
    assert_eq!(handoff.log[0].summary, "did stuff");
    assert_eq!(handoff.log[0].commits, vec![CommitRef::Sha("abc123".into())]);
    assert!(!descriptions.is_empty());
}

#[test]
fn repair_preserves_valid_items() {
    let mut handoff = Handoff {
        items: vec![HandoffItem { id: "hj-1".into(), title: "valid".into(), ..HandoffItem::default() }],
        ..Handoff::default()
    };
    let descriptions = handoff.repair();
    assert_eq!(handoff.items.len(), 1);
    assert!(descriptions.is_empty());
}

#[test]
fn repair_returns_descriptions() {
    let extra_fields = fields(vec![("date", s("20260424:152652")), ("summary", s("work"))]);
    let mut handoff = Handoff {
        items: vec![HandoffItem { id: String::new(), extra_fields, ..HandoffItem::default() }],
        ..Handoff::default()
    };
    let descriptions = handoff.repair();
    assert_eq!(descriptions.len(), 1);
    assert!(descriptions[0].contains("20260424:152652"));
    assert!(descriptions[0].contains("items[0]"))
}

#[test]
fn s1_1_reconcile_audit_no_creates() {
    let handoff = handoff_with_items(vec![open_item("hj-1", "Missing task")]);
    let snapshot = TodoSnapshot { active_titles: vec![], closed_titles: vec![] };
    let plan = build_reconcile_plan("hj", &handoff, &snapshot, ReconcileMode::Audit);
    assert!(plan.creates.is_empty(), "audit mode must never populate creates");
    assert_eq!(plan.report.not_captured, vec!["Missing task".to_string()]);
}

#[test]
fn s1_1_reconcile_sync_creates_missing() {
    let handoff = handoff_with_items(vec![open_item("hj-1", "Missing task")]);
    let snapshot = TodoSnapshot { active_titles: vec![], closed_titles: vec![] };
    let plan = build_reconcile_plan("hj", &handoff, &snapshot, ReconcileMode::Sync);
    assert_eq!(plan.creates.len(), 1);
    assert_eq!(plan.creates[0].title, "Missing task");
    assert_eq!(plan.report.created_count, 1);
    assert_eq!(plan.report.captured_count, 1);
}

#[test]
fn s1_1_reconcile_active_title_increments_captured() {
    let handoff = handoff_with_items(vec![open_item("hj-1", "Already tracked")]);
    let snapshot = TodoSnapshot { active_titles: vec!["Already tracked".into()], closed_titles: vec![] };
    let plan = build_reconcile_plan("hj", &handoff, &snapshot, ReconcileMode::Sync);
    assert!(plan.creates.is_empty());
    assert_eq!(plan.report.captured_count, 1);
    assert_eq!(plan.report.created_count, 0);
}

#[test]
fn s1_1_reconcile_closed_upstream_not_recaptured() {
    let handoff = handoff_with_items(vec![open_item("hj-1", "Done task")]);
    let snapshot = TodoSnapshot { active_titles: vec![], closed_titles: vec!["Done task".into()] };
    let plan = build_reconcile_plan("hj", &handoff, &snapshot, ReconcileMode::Sync);
    assert!(plan.creates.is_empty());
    assert!(plan.report.not_captured.is_empty());
    assert_eq!(plan.report.closed_upstream, vec!["Done task".to_string()]);
}

#[test]
fn s1_1_reconcile_orphaned_active_title_has_no_handoff_item() {
    let handoff = Handoff::default();
    let snapshot = TodoSnapshot { active_titles: vec!["Orphaned".into()], closed_titles: vec![] };
    let plan = build_reconcile_plan("hj", &handoff, &snapshot, ReconcileMode::Sync);
    assert_eq!(plan.report.orphaned, vec!["Orphaned".to_string()]);
}

#[test]
fn s1_1_reconcile_blocked_variant_matches_closed_upstream() {
    let mut item = open_item("hj-1", "Blocked task");
    item.status = Some("blocked".into());
    let handoff = handoff_with_items(vec![item]);
    let snapshot = TodoSnapshot {
        active_titles: vec![],
        closed_titles: vec!["Blocked task [BLOCKED]".into()],
    };
    let plan = build_reconcile_plan("hj", &handoff, &snapshot, ReconcileMode::Sync);
    assert!(plan.creates.is_empty());
    assert_eq!(plan.report.closed_upstream.len(), 1);
}

#[test]
fn s1_2_todo_title_prefers_name_slug() {
    let item = HandoffItem {
        id: "x-1".into(),
        name: Some("wire-render-pass".into()),
        status: Some("open".into()),
        title: "ignored".into(),
        ..HandoffItem::default()
    };
    assert_eq!(item.todo_title(), "Wire Render Pass");
}

#[test]
fn s1_2_todo_title_falls_back_to_title() {
    let item = HandoffItem {
        id: "x-1".into(),
        name: None,
        status: Some("open".into()),
        title: "Raw title".into(),
        ..HandoffItem::default()
    };
    assert_eq!(item.todo_title(), "Raw title");
}

#[test]
fn s1_2_todo_title_appends_blocked_suffix() {
    let item = HandoffItem {
        id: "x-1".into(),
        name: None,
        status: Some("blocked".into()),
        title: "Some task".into(),
        ..HandoffItem::default()
    };
    assert_eq!(item.todo_title(), "Some task [BLOCKED]");
}

#[test]
fn s1_2_title_variants_no_duplicates() {
    let item = HandoffItem {
        id: "x-1".into(),
        name: Some("some-task".into()),
        status: Some("open".into()),
        title: "Some Task".into(),
        ..HandoffItem::default()
    };
    let variants = item.title_variants();
    let deduped: std::collections::HashSet<_> = variants.iter().collect();
    assert_eq!(variants.len(), deduped.len(), "title_variants must not contain duplicates");
}

#[test]
fn s1_2_title_variants_no_empty_strings() {
    let item = open_item("x-1", "Task");
    for v in item.title_variants() {
        assert!(!v.is_empty(), "title_variants must not contain empty strings");
    }
}

#[test]
fn s1_3_p0_keywords() {
    for kw in &["broken", "fails", "security", "blocked", "urgent", "panic", "segfault"] {
        assert_eq!(infer_priority(&format!("CI {kw}"), None), "P0", "keyword '{kw}' should map to P0");
    }
}

#[test]
fn s1_3_p1_keywords() {
    for kw in &["fix", "implement", "refactor", "wire"] {
        assert_eq!(infer_priority(&format!("{kw} this thing"), None), "P1", "keyword '{kw}' should map to P1");
    }
}

#[test]
fn s1_3_p2_fallback() {
    assert_eq!(infer_priority("Explore someday", None), "P2");
}

#[test]
fn s1_3_description_contributes_to_priority() {
    assert_eq!(
        infer_priority("Someday idea", Some("This is urgent!")),
        "P0",
        "description field must contribute to priority inference"
    );
}

#[test]
fn s1_4_active_items_includes_open_and_blocked() {
    let handoff = handoff_with_items(vec![
        item_with_status("hj-1", "open"),
        item_with_status("hj-2", "blocked"),
        item_with_status("hj-3", "done"),
        item_with_status("hj-4", "closed"),
    ]);
    let active = handoff.active_items();
    assert_eq!(active.len(), 2);
    assert!(active.iter().all(|i| matches!(i.status.as_deref(), Some("open" | "blocked"))));
}

#[test]
fn s1_4_active_items_excludes_none_status() {
    let mut item = open_item("hj-1", "Task");
    item.status = None;
    let handoff = handoff_with_items(vec![item]);
    assert_eq!(handoff.active_items().len(), 0);
}

#[test]
fn s1_6_titleize_slug_basic() {
    assert_eq!(titleize_slug("wire-render-pass"), "Wire Render Pass");
}

#[test]
fn s1_6_titleize_slug_single_word() {
    assert_eq!(titleize_slug("implement"), "Implement");
}

#[test]
fn s1_6_titleize_slug_skips_empty_segments() {
    let result = titleize_slug("a--b");
    assert!(!result.contains("  "), "consecutive spaces indicate empty segment not skipped");
}

#[test]
fn s1_7_sanitize_name_lowercases_and_replaces() {
    assert_eq!(sanitize_name("My Project/CLI"), "my-project-cli");
    assert_eq!(sanitize_name("  leading "), "leading");
}

#[test]
fn s1_7_default_id_prefix_max_seven_chars() {
    let prefix = default_id_prefix("very-long-project-name");
    assert!(prefix.len() <= 7, "prefix must be at most 7 characters, got {}", prefix.len());
}

#[test]
fn s1_7_default_id_prefix_exact_seven() {
    assert_eq!(default_id_prefix("atelier"), "atelier");
}

#[test]
fn yaml_value_clone_copies_every_node() {
    let v = YamlValue::Tagged(
        "!entry".to_string(),
        Box::new(YamlValue::Mapping(vec![
            (s("sha"), YamlValue::Sequence(vec![s("abc"), YamlValue::Null, YamlValue::Bool(true)])),
            (s("n"), YamlValue::Number("42".to_string())),
        ])),
    );
    let c = v.clone();
    assert_eq!(format!("{:?}", c), format!("{:?}", v));
}

#[test]
fn titleize_slug_is_empty_only_for_dashes() {
    assert_eq!(titleize_slug(""), "");
    assert_eq!(titleize_slug("---"), "");
    assert_eq!(titleize_slug("-a-"), "A");
    assert_eq!(titleize_slug("ßig"), "SSig");
}
