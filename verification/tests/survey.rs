use hjlib::survey::{extension_of, sort_surveys_by_path, state_name_for, survey_from_handoff};
use hjlib::{
    build_handup_report, extract_marker, group_markers, handup_summary_lines, is_handoff_file,
    is_marker_file, parse_markdown_handoff, recommend_project, Handoff, HandoffItem, HandupItem,
    HandupProject, SurveyHandoff, TodoMarker,
};

#[test]
fn s4_1_handoff_yaml_path_accepted_by_naming_convention() {
    let name = "HANDOFF.hj.hj.yaml";
    assert!(name.starts_with("HANDOFF."));
    assert!(name.ends_with(".yaml"));
    assert!(!name.ends_with(".state.json"));
    assert!(is_handoff_file(name));
}

#[test]
fn s4_1_state_json_path_excluded_by_naming_convention() {
    let name = "HANDOFF.hj.hj.state.json";
    assert!(name.ends_with(".state.json"));
    assert!(!is_handoff_file(name));
}

#[test]
fn s4_2_extracts_bullets_from_known_gaps() {
    let items = parse_markdown_handoff(
        "## Known Gaps\n\n- Fix the thing\n- Implement other\n\n## Other\n\n- Ignored\n",
    );
    assert_eq!(items.len(), 2, "only bullets from Known Gaps must be extracted");
    assert_eq!(items[0].title, "Fix the thing");
    assert_eq!(items[1].title, "Implement other");
}

#[test]
fn s4_2_extracts_bullets_from_next_up() {
    let items = parse_markdown_handoff("## Next Up\n\n- Wire the adapter\n");
    assert_eq!(items.len(), 1);
    assert_eq!(items[0].title, "Wire the adapter");
}

#[test]
fn s4_2_infers_priority_via_hj_core() {
    let items = parse_markdown_handoff("## Known Gaps\n\n- Fix broken thing\n- Explore someday\n");
    let p0 = items.iter().find(|i| i.title == "Fix broken thing");
    let p2 = items.iter().find(|i| i.title == "Explore someday");
    assert_eq!(p0.unwrap().priority.as_deref(), Some("P0"));
    assert_eq!(p2.unwrap().priority.as_deref(), Some("P2"));
}

#[test]
fn s4_2_ids_assigned_sequentially() {
    let items = parse_markdown_handoff("## Known Gaps\n\n- First\n- Second\n- Third\n");
    assert_eq!(items[0].id, "md-1");
    assert_eq!(items[1].id, "md-2");
    assert_eq!(items[2].id, "md-3");
}

#[test]
fn markdown_sections_and_bullet_forms() {
    let items = parse_markdown_handoff(
        "# Notes\n- not a section\n### PARKED\n* star entry\n1. numbered entry\nplain text\n# Done\n- after\n",
    );
    let titles: Vec<&str> = items.iter().map(|i| i.title.as_str()).collect();
    assert_eq!(titles, vec!["star entry", "numbered entry"]);
    assert!(items.iter().all(|i| i.status.as_deref() == Some("open")));
}

#[test]
fn marker_and_file_kinds() {
    assert_eq!(extract_marker("// TODO: later"), Some("TODO:"));
    assert_eq!(extract_marker("# FIXME: HACK: both"), Some("FIXME:"));
    assert_eq!(extract_marker("XXX: odd"), Some("XXX:"));
    assert_eq!(extract_marker("nothing here"), None);
    assert!(is_marker_file("/r/src/lib.rs"));
    assert!(is_marker_file("/r/Cargo.toml"));
    assert!(!is_marker_file("/r/README.md"));
    assert!(!is_marker_file("/r/.rs"));
    assert_eq!(extension_of("/r/a.tar.gz").as_deref(), Some("gz"));
    assert!(is_handoff_file("/r/.ctx/HANDOFF.a.b.md"));
    assert!(!is_handoff_file("/r/.ctx/notes.yaml"));
}

#[test]
fn state_file_name_replaces_yaml() {
    assert_eq!(state_name_for("HANDOFF.hj.hj.yaml"), "HANDOFF.hj.hj.state.json");
    assert_eq!(state_name_for("a.yaml.yaml"), "a.state.json.state.json");
    assert_eq!(state_name_for("HANDOFF.md"), "HANDOFF.md");
}

fn item(id: &str, priority: &str, status: &str, title: &str) -> HandoffItem {
    HandoffItem {
        id: id.into(),
        priority: Some(priority.into()),
        status: Some(status.into()),
        title: title.into(),
        ..HandoffItem::default()
    }
}

fn survey(path: &str, root: &str, name: &str, items: Vec<HandoffItem>) -> SurveyHandoff {
    SurveyHandoff {
        path: path.into(),
        repo_root: root.into(),
        project_name: name.into(),
        branch: None,
        build: None,
        tests: None,
        items,
    }
}

fn marker(root: &str, path: &str, line: usize, text: &str) -> (String, TodoMarker) {
    (root.to_string(), TodoMarker { path: path.into(), line, text: text.into() })
}

#[test]
fn markers_grouped_by_repository() {
    let groups = group_markers(vec![
        marker("/b", "/b/x.rs", 3, "TODO:"),
        marker("/a", "/a/y.rs", 7, "FIXME:"),
        marker("/b", "/b/z.rs", 1, "HACK:"),
    ]);
    assert_eq!(
        groups,
        vec![
            ("/a".to_string(), vec!["/a/y.rs:7  FIXME:".to_string()]),
            (
                "/b".to_string(),
                vec!["/b/x.rs:3  TODO:".to_string(), "/b/z.rs:1  HACK:".to_string()]
            ),
        ]
    );
}

#[test]
fn handup_report_orders_by_urgency() {
    let surveys = vec![
        survey("/w/calm/.ctx/HANDOFF.calm.calm.yaml", "/w/calm", "calm", vec![item("c-1", "P2", "open", "Tidy")]),
        survey(
            "/w/hot/.ctx/HANDOFF.hot.hot.yaml",
            "/w/hot",
            "hot",
            vec![item("h-2", "P1", "open", "Wire"), item("h-1", "P0", "blocked", "Broken")],
        ),
    ];
    let markers = vec![marker("/w/other", "/w/other/a.rs", 2, "TODO:")];
    let report = build_handup_report("/w", "2026-05-01", surveys, markers);
    let names: Vec<&str> = report.projects.iter().map(|p| p.name.as_str()).collect();
    assert_eq!(names, vec!["hot", "calm", "other"]);
    assert_eq!(report.generated, "2026-05-01");
    assert_eq!(report.recommendation.project.as_deref(), Some("hot"));
    assert_eq!(report.recommendation.reason, "1 P0 item(s) need attention");
    let other = &report.projects[2];
    assert_eq!(other.handoff_path, None);
    assert_eq!(other.todos, vec!["/w/other/a.rs:2  TODO:".to_string()]);
    let hot = &report.projects[0];
    assert_eq!(hot.items.len(), 2);
    assert_eq!(hot.items[0].id, "h-2");
    let lines = handup_summary_lines(&report, "/h/HANDUP.json", "/h/handup.db");
    assert_eq!(lines[0], "## handup — /w (2026-05-01)");
    assert_eq!(lines[2], "### hot — /w/hot");
    assert_eq!(lines[3], "  P0  [h-1] Broken (status: blocked)");
    assert_eq!(lines[4], "  P1  [h-2] Wire (status: open)");
    assert!(lines.contains(&"Highest urgency: hot — 1 P0 item(s) need attention".to_string()));
    assert!(lines.contains(&"Suggested: cd /w/hot && /atelier:handon".to_string()));
    assert_eq!(lines.last().unwrap(), "Findings written to: /h/HANDUP.json — checkpointed to /h/handup.db");
}

#[test]
fn handup_merges_handoffs_of_one_repository() {
    let mut second = survey("/w/r/docs/HANDOFF.r.r.md", "/w/r", "r-docs", vec![item("md-1", "P1", "open", "Fix")]);
    second.branch = Some("main".into());
    let surveys = vec![survey("/w/r/.ctx/HANDOFF.r.r.yaml", "/w/r", "r", vec![item("r-1", "P2", "open", "Later")]), second];
    let report = build_handup_report("/w", "d", surveys, vec![]);
    assert_eq!(report.projects.len(), 1);
    let p = &report.projects[0];
    assert_eq!(p.name, "r");
    assert_eq!(p.handoff_path.as_deref(), Some("/w/r/.ctx/HANDOFF.r.r.yaml"));
    assert_eq!(p.branch.as_deref(), Some("main"));
    assert_eq!(p.items.len(), 2);
    assert_eq!(report.recommendation.reason, "1 P1 item(s) ready for follow-up");
}

#[test]
fn empty_survey_recommends_nothing() {
    let report = build_handup_report("/w", "d", vec![], vec![]);
    assert!(report.projects.is_empty());
    assert_eq!(report.recommendation.project, None);
    assert_eq!(report.recommendation.reason, "No open handoff items or TODO markers found.");
    let lines = handup_summary_lines(&report, "j", "db");
    assert_eq!(
        lines,
        vec![
            "No open handoff items or TODO markers found under `/w`.".to_string(),
            "Findings written to: j".to_string(),
            "Checkpointed to: db".to_string(),
        ]
    );
}

#[test]
fn recommendation_reasons() {
    let project = |items: Vec<HandupItem>, todos: Vec<String>| HandupProject {
        name: "p".into(),
        path: "/p".into(),
        repo_root: "/p".into(),
        handoff_path: None,
        branch: None,
        build: None,
        tests: None,
        items,
        todos,
    };
    let open = HandupItem { id: "a".into(), priority: "P2".into(), status: "open".into(), title: "t".into() };
    assert_eq!(
        recommend_project(&[project(vec![open.clone(), open], vec![])]).reason,
        "2 open item(s) remain in handoff"
    );
    assert_eq!(
        recommend_project(&[project(vec![], vec!["x".into()])]).reason,
        "1 inline TODO marker(s) found"
    );
    assert_eq!(recommend_project(&[project(vec![], vec![])]).reason, "No open work found.");
}

#[test]
fn surveys_keep_active_items_and_sort_by_path() {
    let handoff = Handoff {
        project: Some(String::new()),
        items: vec![item("a-1", "P1", "open", "x"), item("a-2", "P1", "done", "y")],
        ..Handoff::default()
    };
    let s = survey_from_handoff(
        "/w/b/.ctx/HANDOFF.b.b.yaml".into(),
        "/w/b".into(),
        Some(String::new()),
        handoff,
        "fallback".into(),
        Some("clean".into()),
        None,
    );
    assert_eq!(s.project_name, "fallback");
    assert_eq!(s.branch, None);
    assert_eq!(s.items.len(), 1);
    let sorted = sort_surveys_by_path(vec![
        survey("/w/a-b/x", "/w/a-b", "1", vec![]),
        s,
        survey("/w/a/x", "/w/a", "2", vec![]),
    ]);
    let paths: Vec<&str> = sorted.iter().map(|s| s.path.as_str()).collect();
    assert_eq!(paths, vec!["/w/a/x", "/w/a-b/x", "/w/b/.ctx/HANDOFF.b.b.yaml"]);
}
