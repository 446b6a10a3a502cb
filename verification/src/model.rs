//! The handoff data model: items, log entries, session state, survey
//! reports and reconciliation results.

use vstd::prelude::*;

use crate::yaml::FieldMap;

verus! {

/// A commit reference in a log entry: a bare SHA, or the `{sha, branch}` form.
#[derive(Debug, Clone, PartialEq, Eq)]
pub enum CommitRef {
    Sha(String),
    Object { sha: String, branch: Option<String> },
}

/// The SHA of a commit reference, whichever form it has.
pub open spec fn commit_sha(c: CommitRef) -> Seq<char> {
    match c {
        CommitRef::Sha(s) => s@,
        CommitRef::Object { sha, .. } => sha@,
    }
}

impl CommitRef {
    /// The SHA, whichever form the reference has.
    pub fn sha(&self) -> (r: &str)
        ensures
            r@ == commit_sha(*self),
    {
        match self {
            CommitRef::Sha(s) => s.as_str(),
            CommitRef::Object { sha, .. } => sha.as_str(),
        }
    }
}

/// A structural problem found in a handoff by `Handoff::validate`.
#[derive(Debug, Clone, PartialEq, Eq)]
pub enum ValidationWarning {
    /// An item is missing its `id` field.
    ItemMissingId { index: usize, title: String },
    /// An item looks like a log entry (it has a date, or a summary and commits, but no id).
    LogEntryInItems { index: usize, date: String },
    /// A log entry is missing its summary.
    LogEntryMissingSummary { index: usize },
    /// Several items share one id.
    DuplicateItemId { id: String, indices: Vec<usize> },
}

/// A handoff file: project metadata, work items and the session log.
#[derive(Debug)]
pub struct Handoff {
    pub project: Option<String>,
    pub id: Option<String>,
    pub updated: Option<String>,
    pub items: Vec<HandoffItem>,
    pub log: Vec<LogEntry>,
    pub extra: FieldMap,
}

/// One work item of a handoff.
#[derive(Debug)]
pub struct HandoffItem {
    pub id: String,
    pub doob_uuid: Option<String>,
    pub name: Option<String>,
    pub priority: Option<String>,
    pub status: Option<String>,
    pub title: String,
    pub description: Option<String>,
    pub files: Vec<String>,
    pub completed: Option<String>,
    pub issue: Option<u64>,
    pub extra: Vec<ExtraEntry>,
    pub extra_fields: FieldMap,
}

/// A structured extra record of an item, such as a human edit awaiting review.
#[derive(Debug)]
pub struct ExtraEntry {
    pub date: Option<String>,
    /// The record's `type` field.
    pub entry_type: Option<String>,
    pub field: Option<String>,
    pub value: Option<String>,
    pub reviewed: Option<String>,
    pub note: Option<String>,
    pub extra_fields: FieldMap,
}

/// A dated session summary with the commits it produced.
#[derive(Debug)]
pub struct LogEntry {
    pub date: Option<String>,
    pub summary: String,
    pub commits: Vec<CommitRef>,
    pub extra: FieldMap,
}

/// The ephemeral state of a working session: branch, build and test status, notes.
#[derive(Debug)]
pub struct HandoffState {
    pub updated: Option<String>,
    pub branch: Option<String>,
    pub build: Option<String>,
    pub tests: Option<String>,
    pub notes: Option<String>,
    pub touched_files: Vec<String>,
    pub last_log: Option<String>,
    pub extra: FieldMap,
}

/// The cross-repository survey written by `handup`.
#[derive(Debug, Clone, PartialEq, Eq)]
pub struct HandupReport {
    pub generated: String,
    pub cwd: String,
    pub projects: Vec<HandupProject>,
    pub recommendation: HandupRecommendation,
}

/// One repository of a survey.
#[derive(Debug, Clone, PartialEq, Eq)]
pub struct HandupProject {
    pub name: String,
    pub path: String,
    pub repo_root: String,
    pub handoff_path: Option<String>,
    pub branch: Option<String>,
    pub build: Option<String>,
    pub tests: Option<String>,
    pub items: Vec<HandupItem>,
    pub todos: Vec<String>,
}

/// One open item of a surveyed repository.
#[derive(Debug, Clone, PartialEq, Eq)]
pub struct HandupItem {
    pub id: String,
    pub priority: String,
    pub status: String,
    pub title: String,
}

/// Where a survey suggests to work next, and why.
#[derive(Debug, Clone, PartialEq, Eq)]
pub struct HandupRecommendation {
    pub project: Option<String>,
    pub reason: String,
}

/// Whether reconciliation creates missing todos or only reports them.
#[derive(Debug, Clone, Copy, PartialEq, Eq)]
pub enum ReconcileMode {
    Sync,
    Audit,
}

/// The outcome of reconciling a handoff with a todo backend.
#[derive(Debug, Clone, PartialEq, Eq)]
pub struct ReconcileReport {
    pub project: String,
    pub captured_count: usize,
    pub created_count: usize,
    pub not_captured: Vec<String>,
    pub orphaned: Vec<String>,
    pub closed_upstream: Vec<String>,
}

/// The titles a todo backend holds: still active, and already closed.
#[derive(Debug, Clone, PartialEq, Eq)]
pub struct TodoSnapshot {
    pub active_titles: Vec<String>,
    pub closed_titles: Vec<String>,
}

/// A todo that reconciliation asks the backend to create.
#[derive(Debug, Clone, PartialEq, Eq)]
pub struct ReconcileCreate {
    pub title: String,
    pub priority: Option<String>,
}

/// The todos to create and the report of a reconciliation.
#[derive(Debug, Clone, PartialEq, Eq)]
pub struct ReconcilePlan {
    pub creates: Vec<ReconcileCreate>,
    pub report: ReconcileReport,
}

impl Default for Handoff {
    fn default() -> (r: Self)
        ensures
            r.project is None,
            r.id is None,
            r.updated is None,
            r.items@.len() == 0,
            r.log@.len() == 0,
            r.extra.len_spec() == 0,
    {
        Handoff {
            project: None,
            id: None,
            updated: None,
            items: Vec::new(),
            log: Vec::new(),
            extra: FieldMap::new(),
        }
    }
}

impl Default for HandoffItem {
    fn default() -> (r: Self)
        ensures
            r.id@.len() == 0,
            r.doob_uuid is None,
            r.name is None,
            r.priority is None,
            r.status is None,
            r.title@.len() == 0,
            r.description is None,
            r.files@.len() == 0,
            r.completed is None,
            r.issue is None,
            r.extra@.len() == 0,
            r.extra_fields.len_spec() == 0,
            forall|k: Seq<char>| r.extra_fields.get_spec(k) is None,
    {
        HandoffItem {
            id: String::new(),
            doob_uuid: None,
            name: None,
            priority: None,
            status: None,
            title: String::new(),
            description: None,
            files: Vec::new(),
            completed: None,
            issue: None,
            extra: Vec::new(),
            extra_fields: FieldMap::new(),
        }
    }
}

impl Default for ExtraEntry {
    fn default() -> (r: Self)
        ensures
            r.date is None,
            r.entry_type is None,
            r.field is None,
            r.value is None,
            r.reviewed is None,
            r.note is None,
            r.extra_fields.len_spec() == 0,
    {
        ExtraEntry {
            date: None,
            entry_type: None,
            field: None,
            value: None,
            reviewed: None,
            note: None,
            extra_fields: FieldMap::new(),
        }
    }
}

impl Default for LogEntry {
    fn default() -> (r: Self)
        ensures
            r.date is None,
            r.summary@.len() == 0,
            r.commits@.len() == 0,
            r.extra.len_spec() == 0,
    {
        LogEntry { date: None, summary: String::new(), commits: Vec::new(), extra: FieldMap::new() }
    }
}

impl Default for HandoffState {
    fn default() -> (r: Self)
        ensures
            r.updated is None,
            r.branch is None,
            r.build is None,
            r.tests is None,
            r.notes is None,
            r.touched_files@.len() == 0,
            r.last_log is None,
            r.extra.len_spec() == 0,
    {
        HandoffState {
            updated: None,
            branch: None,
            build: None,
            tests: None,
            notes: None,
            touched_files: Vec::new(),
            last_log: None,
            extra: FieldMap::new(),
        }
    }
}

} // verus!
