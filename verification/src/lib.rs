//! Handoff tracking: the data model, reconciliation, rendering and
//! repository bookkeeping behind the `hj` command line tool.

pub mod text;
pub mod yaml;
pub mod model;
pub mod naming;
pub mod items;
pub mod reconcile;
pub mod render;
pub mod validate;
pub mod records;
pub mod paths;
pub mod handup;
pub mod store;
pub mod session;
pub mod detect;
pub mod gitignore;
pub mod survey;
pub mod alias;
pub mod install;

pub use alias::rewrite_args_for_alias;
pub use gitignore::gitignore_with_block;
pub use detect::{
    derive_project_name, is_ignored_dir, manifest_name_from, manifest_name_of_texts, pick_root_handoff,
    HandoffPaths, ManifestError, RefreshReport, RepoContext, TomlValue,
};
pub use handup::{
    build_handup_report, group_markers, handup_summary_lines, recommend_project, SurveyHandoff,
    TodoMarker,
};
pub use model::{
    CommitRef, ExtraEntry, Handoff, HandoffItem, HandoffState, HandupItem, HandupProject,
    HandupRecommendation, HandupReport, LogEntry, ReconcileCreate, ReconcileMode, ReconcilePlan,
    ReconcileReport, TodoSnapshot, ValidationWarning,
};
pub use naming::{default_id_prefix, infer_priority, sanitize_name, titleize_slug};
pub use reconcile::{build_reconcile_plan, map_priority, unique_titles, DoobClient, TodoStatus};
pub use render::{
    priority_rank, render_handover_markdown, render_markdown, sorted_active_items, status_rank,
};
pub use session::{
    apply_handoff_rows, build_state, classify_items, collect_review_on_wake, format_triage_item,
    TriageBuckets,
};
pub use store::{HandoffDb, HandoffRow, HandupCheckpoint, HandupDb, UpsertReport};
pub use survey::{extract_marker, is_handoff_file, is_marker_file, parse_markdown_handoff};
pub use yaml::{FieldMap, YamlValue};
