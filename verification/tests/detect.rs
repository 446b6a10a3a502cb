use hjlib::detect::{collect_package_names, initial_state, refresh_message, trimmed_output};
use hjlib::install::{expand_home, install_args, install_summary, update_args};
use hjlib::store::{prune_params, prune_sql, upsert_params};
use hjlib::{
    derive_project_name, gitignore_with_block, is_ignored_dir, manifest_name_from, manifest_name_of_texts,
    pick_root_handoff, ManifestError,
    Handoff, HandoffDb, HandoffItem, HandupDb, RefreshReport, RepoContext, TomlValue,
};

fn ctx(root: &str) -> RepoContext {
    RepoContext { repo_root: root.into(), cwd: root.into(), base_name: "hj".into() }
}

fn file_name(p: &str) -> String {
    std::path::Path::new(p).file_name().unwrap().to_str().unwrap().to_string()
}

#[test]
fn s4_3_handoff_path_follows_naming_contract() {
    let paths = ctx("/work/hj").paths(Some("myproject"), "derived");
    assert_eq!(file_name(&paths.handoff_path), "HANDOFF.myproject.hj.yaml");
}

#[test]
fn s4_3_state_path_follows_naming_contract() {
    let paths = ctx("/work/hj").paths(Some("myproject"), "derived");
    assert_eq!(file_name(&paths.state_path), "HANDOFF.myproject.hj.state.json");
}

#[test]
fn s4_3_project_name_is_sanitized() {
    let paths = ctx("/work/hj").paths(Some("My Project/CLI"), "derived");
    let name = file_name(&paths.handoff_path);
    assert!(name.starts_with("HANDOFF.my-project-cli."), "project name must be sanitized, got: {name}");
}

#[test]
fn paths_live_under_ctx() {
    let paths = ctx("/work/hj/").paths(None, "Hj Tools");
    assert_eq!(paths.project, "hj-tools");
    assert_eq!(paths.ctx_dir, "/work/hj/.ctx");
    assert_eq!(paths.rendered_path, "/work/hj/.ctx/HANDOFF.md");
    assert_eq!(paths.handover_path, "/work/hj/.ctx/HANDOVER.md");
    assert_eq!(paths.handoff_path, "/work/hj/.ctx/HANDOFF.hj-tools.hj.yaml");
}

#[test]
fn derive_project_name_falls_back_to_dir_basename() {
    let dir = "/tmp/.tmpAbC12";
    let result = derive_project_name(None, None, dir).unwrap();
    let expected = std::path::Path::new(dir)
        .file_name()
        .unwrap()
        .to_str()
        .unwrap()
        .to_ascii_lowercase()
        .replace([' ', '/'], "-");
    assert_eq!(result, expected);
}

#[test]
fn project_name_prefers_manifests() {
    let c = RepoContext { repo_root: "/r".into(), cwd: "/r/sub dir".into(), base_name: "r".into() };
    assert_eq!(c.project_name(Some("My Crate"), Some("root")).as_deref(), Some("my-crate"));
    assert_eq!(c.project_name(None, Some("Root")).as_deref(), Some("root"));
    assert_eq!(c.project_name(None, None).as_deref(), Some("sub-dir"));
    let top = RepoContext { repo_root: "/".into(), cwd: "/".into(), base_name: String::new() };
    assert_eq!(top.project_name(None, None), None);
}

#[test]
fn repository_from_git_toplevel() {
    let c = RepoContext::from_toplevel("  /work/hj\n", "/work/hj/src".into()).unwrap();
    assert_eq!(c.repo_root, "/work/hj");
    assert_eq!(c.base_name, "hj");
    assert!(RepoContext::from_toplevel("/\n", "/".into()).is_none());
}

fn table(entries: Vec<(&str, TomlValue)>) -> TomlValue {
    TomlValue::Table(entries.into_iter().map(|(k, v)| (k.to_string(), v)).collect())
}

#[test]
fn manifest_names_from_cargo_pyproject_and_go() {
    let cargo = table(vec![(
        "package",
        table(vec![("name", TomlValue::String("hj-cli".into())), ("version", TomlValue::String("0.1.0".into()))]),
    )]);
    assert_eq!(manifest_name_from(Some(&cargo), None, None).as_deref(), Some("hj-cli"));
    let poetry = table(vec![(
        "tool",
        table(vec![("poetry", table(vec![("name", TomlValue::String("py-app".into()))]))]),
    )]);
    let workspace_only = table(vec![("workspace", table(vec![]))]);
    assert_eq!(manifest_name_from(Some(&workspace_only), Some(&poetry), None).as_deref(), Some("py-app"));
    assert_eq!(
        manifest_name_from(None, None, Some("// comment\nmodule github.com/acme/tool \ngo 1.22\n")).as_deref(),
        Some("tool")
    );
    assert_eq!(manifest_name_from(None, None, Some("module \n")), None);
    assert_eq!(manifest_name_from(Some(&TomlValue::Other), None, None), None);
}

#[test]
fn package_names_are_sorted_and_unique() {
    let names = collect_package_names(&vec!["Zeta".into(), "alpha".into(), "zeta".into()], "/r").unwrap();
    assert_eq!(names, vec!["alpha".to_string(), "zeta".to_string()]);
    assert_eq!(collect_package_names(&vec![], "/work/My Repo").unwrap(), vec!["my-repo".to_string()]);
    assert_eq!(collect_package_names(&vec![], "/"), None);
}

#[test]
fn root_handoff_is_first_matching_name() {
    let names = vec![
        "README.md".to_string(),
        "HANDOFF.z.repo.yaml".to_string(),
        "HANDOFF.a.repo.yaml".to_string(),
        "HANDOFF.b.repo.md".to_string(),
    ];
    assert_eq!(pick_root_handoff(&names).as_deref(), Some("HANDOFF.a.repo.yaml"));
    assert_eq!(pick_root_handoff(&vec!["README.md".to_string()]), None);
}

#[test]
fn rewrites_gitignore_block() {
    let updated = gitignore_with_block("target/\n# handoff-begin\nold\n# handoff-end\nnode_modules/\n");
    assert!(updated.contains(".ctx/*"));
    assert!(updated.contains(".ctx/HANDOFF.*.*.state.json"));
    assert!(updated.contains(".ctx/HANDOFF.hj.hj.state.json"));
    assert!(updated.contains("target/"));
    assert!(updated.contains("node_modules/"));
    assert!(!updated.contains("\nold\n"));
    assert_eq!(gitignore_with_block(&updated), updated);
    assert_eq!(updated.matches("# handoff-begin").count(), 1);
}

#[test]
fn gitignore_block_appended_after_blank_line() {
    let updated = gitignore_with_block("target/");
    assert!(updated.starts_with("target/\n\n# handoff-begin\n"));
    assert!(updated.ends_with("# handoff-end\n"));
    assert_eq!(gitignore_with_block(&updated), updated);
    let empty = gitignore_with_block("");
    assert!(empty.starts_with("# handoff-begin\n"));
}

#[test]
fn ignored_directories() {
    assert!(is_ignored_dir("/r/target"));
    assert!(is_ignored_dir("/r/.git/"));
    assert!(!is_ignored_dir("/r/src"));
}

#[test]
fn refresh_helpers() {
    let s = initial_state("2026-05-02", "main");
    assert_eq!(s.build.as_deref(), Some("unknown"));
    assert_eq!(s.branch.as_deref(), Some("main"));
    assert_eq!(trimmed_output(" abc1234\n"), "abc1234");
    let r = RefreshReport { ctx_dir: "/r/.ctx".into(), packages: vec!["a".into(), "b".into()] };
    assert_eq!(refresh_message(&r), "refreshed /r/.ctx (packages: a, b)");
}

#[test]
fn database_statements() {
    assert_eq!(prune_sql(0), "DELETE FROM items WHERE project = ?1");
    assert_eq!(prune_sql(3), "DELETE FROM items WHERE project = ? AND id NOT IN (?, ?, ?)");
    let h = Handoff {
        items: vec![
            HandoffItem { id: "a".into(), priority: Some("P1".into()), ..HandoffItem::default() },
            HandoffItem { id: "b".into(), ..HandoffItem::default() },
        ],
        ..Handoff::default()
    };
    assert_eq!(prune_params("hj", &h), vec!["hj", "a", "b"]);
    assert_eq!(upsert_params("hj", &h.items[0], "d"), vec!["hj", "a", "", "P1", "", "", "d"]);
    assert_eq!(HandoffDb::with_path("/x/handoff.db".into()).db_path(), "/x/handoff.db");
    assert_eq!(HandupDb::with_path("/x/handup.db".into()).db_path(), "/x/handup.db");
}

#[test]
fn install_arguments() {
    assert_eq!(expand_home("~/.local", Some("/home/u")).as_deref(), Some("/home/u/.local"));
    assert_eq!(expand_home("~/.local", None), None);
    assert_eq!(expand_home("/opt", None).as_deref(), Some("/opt"));
    assert_eq!(install_args("/opt")[2], "crates/hjx");
    assert_eq!(update_args("/opt")[1], "hjx");
    assert_eq!(
        install_summary("Installed", "/opt"),
        "Installed hj, handoff, handon, handover, handup, handoff-db, and handoff-detect into /opt/bin"
    );
}

#[test]
fn parses_package_name_from_cargo_manifest() {
    assert_eq!(
        manifest_name_of_texts(Some("[package]\nname = \"hj-cli\"\nversion = \"0.1.0\"\n"), None, None),
        Ok(Some("hj-cli".to_string()))
    );
}

#[test]
fn manifest_texts_fall_back_and_report_parse_errors() {
    let py = "[project]\nname = \"py-app\"\n";
    let poetry = "[tool.poetry]\nname = \"poetry-app\"\n";
    assert_eq!(manifest_name_of_texts(Some("[workspace]\nmembers = []\n"), Some(py), None), Ok(Some("py-app".into())));
    assert_eq!(manifest_name_of_texts(None, Some(poetry), None), Ok(Some("poetry-app".into())));
    assert_eq!(manifest_name_of_texts(None, None, Some("module github.com/acme/tool\n")), Ok(Some("tool".into())));
    assert_eq!(manifest_name_of_texts(Some("[package\nname ="), Some(py), None), Err(ManifestError::Cargo));
    assert_eq!(manifest_name_of_texts(None, Some("name = = 1"), None), Err(ManifestError::Pyproject));
    // A valid Cargo.toml that names a package wins before pyproject.toml is parsed.
    assert_eq!(manifest_name_of_texts(Some("[package]\nname = \"c\"\n"), Some("name = = 1"), None), Ok(Some("c".into())));
    // A package name that is not a string is no name.
    assert_eq!(manifest_name_of_texts(Some("[package]\nname = 3\n"), None, None), Ok(None));
    assert_eq!(manifest_name_of_texts(None, None, None), Ok(None));
}

#[test]
fn gitignore_block_appears_once_with_outside_lines_in_order() {
    let g1 = gitignore_with_block("target/\n# handoff-begin\nold\n# handoff-end\nnode_modules/\n# handoff-begin\nx\n# handoff-end\n");
    assert_eq!(g1.lines().filter(|l| *l == "# handoff-begin").count(), 1);
    let lines: Vec<&str> = g1.lines().collect();
    assert_eq!(lines[0], "target/");
    assert_eq!(lines[1], "# handoff-begin");
    assert_eq!(lines[9], "# handoff-end");
    assert_eq!(lines[10], "node_modules/");
    assert_eq!(lines.len(), 11);
    assert!(g1.ends_with('\n'));
    assert_eq!(gitignore_with_block(&g1), g1);
}
