//! The SQLite side of handoffs: the rows it keeps per item, the statements
//! that keep them in step with a handoff, and where the databases live.
//! The statements are executed by the command line tool.

use vstd::prelude::*;

use crate::items::ov;
use crate::model::{Handoff, HandoffItem};
use crate::text::{owned, sv};

verus! {

/// One item row of the handoff database.
#[derive(Debug, Clone, PartialEq, Eq)]
pub struct HandoffRow {
    pub id: String,
    pub priority: String,
    pub status: String,
    pub completed: String,
    pub updated: String,
}

/// What an upsert did: the database it wrote and the items it synced.
#[derive(Debug, Clone, PartialEq, Eq)]
pub struct UpsertReport {
    pub db_path: String,
    pub synced: usize,
}

/// The handoff database at a path.
#[derive(Debug, Clone)]
pub struct HandoffDb {
    db_path: String,
}

/// One survey checkpoint row of the handup database.
#[derive(Debug, Clone, PartialEq, Eq)]
pub struct HandupCheckpoint {
    pub project: String,
    pub cwd: String,
    pub generated: String,
    pub recommendation: String,
    pub json_path: String,
}

/// The handup database at a path.
#[derive(Debug, Clone)]
pub struct HandupDb {
    db_path: String,
}

impl HandoffDb {
    /// The path of the database file.
    pub closed spec fn path_spec(&self) -> Seq<char> {
        self.db_path@
    }

    /// The database at `db_path`.
    pub fn with_path(db_path: String) -> (r: Self)
        ensures
            r.path_spec() == db_path@,
    {
        HandoffDb { db_path }
    }

    /// The path of the database file.
    pub fn db_path(&self) -> (r: &str)
        ensures
            r@ == self.path_spec(),
    {
        self.db_path.as_str()
    }
}

impl HandupDb {
    /// The path of the database file.
    pub closed spec fn path_spec(&self) -> Seq<char> {
        self.db_path@
    }

    /// The database at `db_path`.
    pub fn with_path(db_path: String) -> (r: Self)
        ensures
            r.path_spec() == db_path@,
    {
        HandupDb { db_path }
    }

    /// The path of the database file.
    pub fn db_path(&self) -> (r: &str)
        ensures
            r@ == self.path_spec(),
    {
        self.db_path.as_str()
    }
}

/// An optional string, or the empty string.
pub open spec fn or_empty(o: Option<Seq<char>>) -> Seq<char> {
    match o {
        Some(s) => s,
        None => Seq::empty(),
    }
}

/// The values an item row is written with: project, id, name, priority,
/// status, completed, updated (absent fields as empty strings).
pub open spec fn upsert_values(project: Seq<char>, item: HandoffItem, today: Seq<char>) -> Seq<Seq<char>> {
    seq![
        project,
        item.id@,
        or_empty(ov(item.name)),
        or_empty(ov(item.priority)),
        or_empty(ov(item.status)),
        or_empty(ov(item.completed)),
        today,
    ]
}

fn or_empty_exec(o: &Option<String>) -> (r: String)
    ensures
        r@ == or_empty(ov(*o)),
{
    match o {
        Some(s) => s.clone(),
        None => String::new(),
    }
}

/// The values an item's row is written with.
pub fn upsert_params(project: &str, item: &HandoffItem, today: &str) -> (r: Vec<String>)
    ensures
        sv(r@) == upsert_values(project@, *item, today@),
{
    let mut r: Vec<String> = Vec::new();
    r.push(owned(project));
    r.push(item.id.clone());
    r.push(or_empty_exec(&item.name));
    r.push(or_empty_exec(&item.priority));
    r.push(or_empty_exec(&item.status));
    r.push(or_empty_exec(&item.completed));
    r.push(owned(today));
    assert(sv(r@) =~= upsert_values(project@, *item, today@));
    r
}

/// `n` placeholders joined by `, `.
pub open spec fn placeholders(n: nat) -> Seq<char>
    decreases n,
{
    if n == 0 {
        Seq::empty()
    } else if n == 1 {
        "?"@
    } else {
        placeholders((n - 1) as nat) + ", ?"@
    }
}

/// The statement that drops the rows of a project whose items are gone:
/// every row of the project when the handoff has no items, else the rows
/// whose id is not among the `n` ids bound after the project.
pub open spec fn prune_sql_spec(n: nat) -> Seq<char> {
    if n == 0 {
        "DELETE FROM items WHERE project = ?1"@
    } else {
        "DELETE FROM items WHERE project = ? AND id NOT IN ("@ + placeholders(n) + ")"@
    }
}

/// The pruning statement for a handoff with `n` items.
pub fn prune_sql(n: usize) -> (r: String)
    ensures
        r@ == prune_sql_spec(n as nat),
{
    if n == 0 {
        return owned("DELETE FROM items WHERE project = ?1");
    }
    let mut r = owned("DELETE FROM items WHERE project = ? AND id NOT IN (");
    let ghost head = r@;
    r.append("?");
    let mut k: usize = 1;
    while k < n
        invariant
            1 <= k <= n,
            r@ == head + placeholders(k as nat),
        decreases n - k,
    {
        r.append(", ?");
        proof {
            assert(head + placeholders((k + 1) as nat) =~= head + placeholders(k as nat) + ", ?"@);
        }
        k = k + 1;
    }
    r.append(")");
    r
}

/// The values the pruning statement binds: the project, then each item id.
pub fn prune_params(project: &str, handoff: &Handoff) -> (r: Vec<String>)
    ensures
        sv(r@) == seq![project@] + handoff.items@.map_values(|i: HandoffItem| i.id@),
{
    let mut r: Vec<String> = Vec::new();
    r.push(owned(project));
    let mut k: usize = 0;
    while k < handoff.items.len()
        invariant
            k <= handoff.items@.len(),
            sv(r@) == seq![project@] + handoff.items@.take(k as int).map_values(|i: HandoffItem| i.id@),
        decreases handoff.items.len() - k,
    {
        let ghost before = r@;
        r.push(handoff.items[k].id.clone());
        assert(sv(r@) =~= sv(before).push(handoff.items@[k as int].id@));
        assert(handoff.items@.take(k + 1).map_values(|i: HandoffItem| i.id@) =~= handoff.items@.take(
            k as int,
        ).map_values(|i: HandoffItem| i.id@).push(handoff.items@[k as int].id@));
        k = k + 1;
    }
    assert(handoff.items@.take(handoff.items@.len() as int) =~= handoff.items@);
    r
}

} // verus!
