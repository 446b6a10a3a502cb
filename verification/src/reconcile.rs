//! Reconciling a handoff with a todo backend: which items are captured,
//! closed upstream or missing, and which backend todos are orphaned.

use vstd::prelude::*;

use crate::items::{active_seq, lemma_dedup_nonempty, ov, title_variants_spec, todo_title_spec};
use crate::model::{
    Handoff, HandoffItem, ReconcileCreate, ReconcileMode, ReconcilePlan, ReconcileReport,
    TodoSnapshot,
};
use crate::text::{
    insert_sorted_unique, owned, str_eq, strictly_sorted, sv, vec_contains_str,
};

verus! {

/// Does the backend know the item under one of its title variants?
pub open spec fn known_as(titles: Seq<Seq<char>>, item: HandoffItem) -> bool {
    exists|j: int|
        0 <= j < title_variants_spec(item).len() && titles.contains(
            #[trigger] title_variants_spec(item)[j],
        )
}

/// How many of the items the backend holds as active todos.
pub open spec fn count_captured(a: Seq<HandoffItem>, snap: TodoSnapshot) -> nat
    decreases a.len(),
{
    if a.len() == 0 {
        0
    } else {
        count_captured(a.drop_last(), snap) + if known_as(sv(snap.active_titles@), a.last()) {
            1nat
        } else {
            0nat
        }
    }
}

/// The items the backend has closed (and does not hold as active).
pub open spec fn closed_items(a: Seq<HandoffItem>, snap: TodoSnapshot) -> Seq<HandoffItem>
    decreases a.len(),
{
    if a.len() == 0 {
        Seq::<HandoffItem>::empty()
    } else if !known_as(sv(snap.active_titles@), a.last()) && known_as(
        sv(snap.closed_titles@),
        a.last(),
    ) {
        closed_items(a.drop_last(), snap).push(a.last())
    } else {
        closed_items(a.drop_last(), snap)
    }
}

/// The items the backend does not know at all.
pub open spec fn missing_items(a: Seq<HandoffItem>, snap: TodoSnapshot) -> Seq<HandoffItem>
    decreases a.len(),
{
    if a.len() == 0 {
        Seq::<HandoffItem>::empty()
    } else if !known_as(sv(snap.active_titles@), a.last()) && !known_as(
        sv(snap.closed_titles@),
        a.last(),
    ) {
        missing_items(a.drop_last(), snap).push(a.last())
    } else {
        missing_items(a.drop_last(), snap)
    }
}

/// The todo titles of some items.
pub open spec fn todo_titles(a: Seq<HandoffItem>) -> Seq<Seq<char>> {
    a.map_values(|it: HandoffItem| todo_title_spec(it))
}

/// Is `t` a title variant of one of the items?
pub open spec fn is_handoff_title(a: Seq<HandoffItem>, t: Seq<char>) -> bool {
    exists|i: int| 0 <= i < a.len() && title_variants_spec(#[trigger] a[i]).contains(t)
}

/// The backend's active titles that name no active item.
pub open spec fn orphaned_titles(titles: Seq<Seq<char>>, a: Seq<HandoffItem>) -> Seq<Seq<char>>
    decreases titles.len(),
{
    if titles.len() == 0 {
        Seq::<Seq<char>>::empty()
    } else if is_handoff_title(a, titles.last()) {
        orphaned_titles(titles.drop_last(), a)
    } else {
        orphaned_titles(titles.drop_last(), a).push(titles.last())
    }
}

/// A create request's title and priority.
pub open spec fn create_view(c: ReconcileCreate) -> (Seq<char>, Option<Seq<char>>) {
    (c.title@, ov(c.priority))
}

/// The create requests for missing items.
pub open spec fn creates_for(a: Seq<HandoffItem>) -> Seq<(Seq<char>, Option<Seq<char>>)> {
    a.map_values(|it: HandoffItem| (todo_title_spec(it), ov(it.priority)))
}

/// Does the backend hold one of the item's title variants?
pub fn contains_any(existing: &Vec<String>, item: &HandoffItem) -> (r: bool)
    ensures
        r == known_as(sv(existing@), *item),
{
    let variants = item.title_variants();
    let ghost vs = variants@.map_values(|s: String| s@);
    let mut i: usize = 0;
    while i < variants.len()
        invariant
            i <= variants@.len(),
            vs == variants@.map_values(|s: String| s@),
            vs == title_variants_spec(*item),
            forall|j: int| 0 <= j < i ==> !sv(existing@).contains(#[trigger] vs[j]),
        decreases variants.len() - i,
    {
        if vec_contains_str(existing, variants[i].as_str()) {
            assert(sv(existing@).contains(title_variants_spec(*item)[i as int]));
            return true;
        }
        i = i + 1;
    }
    false
}

/// Compares a handoff's active items with a snapshot of the backend and plans
/// what to create (in `Sync` mode) or report (in `Audit` mode).
pub fn build_reconcile_plan(
    project: &str,
    handoff: &Handoff,
    snapshot: &TodoSnapshot,
    mode: ReconcileMode,
) -> (r: ReconcilePlan)
    ensures
        ({
            let a = active_seq(handoff.items@);
            let missing = missing_items(a, *snapshot);
            let sync = mode == ReconcileMode::Sync;
            &&& r.report.project@ == project@
            &&& r.report.captured_count == count_captured(a, *snapshot) + if sync {
                missing.len()
            } else {
                0
            }
            &&& r.report.created_count == if sync {
                missing.len()
            } else {
                0
            }
            &&& r.creates@.map_values(|c: ReconcileCreate| create_view(c)) == if sync {
                creates_for(missing)
            } else {
                Seq::empty()
            }
            &&& sv(r.report.not_captured@) == if sync {
                Seq::empty()
            } else {
                todo_titles(missing)
            }
            &&& sv(r.report.closed_upstream@) == todo_titles(closed_items(a, *snapshot))
            &&& sv(r.report.orphaned@) == orphaned_titles(sv(snapshot.active_titles@), a)
        }),
{
    let active = handoff.active_items();
    let ghost a = active_seq(handoff.items@);
    let ghost snap = *snapshot;
    let sync = match mode {
        ReconcileMode::Sync => true,
        ReconcileMode::Audit => false,
    };
    let mut captured_count: usize = 0;
    let mut created_count: usize = 0;
    let mut not_captured: Vec<String> = Vec::new();
    let mut closed_upstream: Vec<String> = Vec::new();
    let mut creates: Vec<ReconcileCreate> = Vec::new();
    let mut handoff_titles: Vec<String> = Vec::new();
    let mut i: usize = 0;
    while i < active.len()
        invariant
            i <= active@.len(),
            active@.map_values(|x: &HandoffItem| *x) == a,
            snap == *snapshot,
            sync == (mode == ReconcileMode::Sync),
            captured_count == count_captured(a.subrange(0, i as int), snap) + if sync {
                missing_items(a.subrange(0, i as int), snap).len()
            } else {
                0
            },
            created_count == if sync {
                missing_items(a.subrange(0, i as int), snap).len()
            } else {
                0
            },
            creates@.map_values(|c: ReconcileCreate| create_view(c)) == if sync {
                creates_for(missing_items(a.subrange(0, i as int), snap))
            } else {
                Seq::empty()
            },
            sv(not_captured@) == if sync {
                Seq::empty()
            } else {
                todo_titles(missing_items(a.subrange(0, i as int), snap))
            },
            sv(closed_upstream@) == todo_titles(closed_items(a.subrange(0, i as int), snap)),
            captured_count <= i,
            created_count <= i,
            forall|t: Seq<char>|
                sv(handoff_titles@).contains(t) <==> is_handoff_title(a.subrange(0, i as int), t),
        decreases active.len() - i,
    {
        let item: &HandoffItem = active[i];
        let ghost pre = a.subrange(0, i as int);
        let ghost cur = a.subrange(0, i + 1);
        assert(cur.drop_last() =~= pre);
        assert(cur.last() == *item);
        let variants = item.title_variants();
        let ghost old_titles = sv(handoff_titles@);
        let mut k: usize = 0;
        while k < variants.len()
            invariant
                k <= variants@.len(),
                variants@.map_values(|s: String| s@) == title_variants_spec(*item),
                sv(handoff_titles@) == old_titles + variants@.map_values(|s: String| s@).subrange(
                    0,
                    k as int,
                ),
            decreases variants.len() - k,
        {
            let ghost before = sv(handoff_titles@);
            handoff_titles.push(variants[k].clone());
            assert(sv(handoff_titles@) =~= before.push(variants@[k as int]@));
            assert(before.push(variants@[k as int]@) =~= old_titles + variants@.map_values(
                |s: String| s@,
            ).subrange(0, k + 1));
            k = k + 1;
        }
        proof {
            let vs = variants@.map_values(|s: String| s@);
            assert(vs.subrange(0, vs.len() as int) =~= vs);
            assert forall|t: Seq<char>| sv(handoff_titles@).contains(t) <==> is_handoff_title(cur, t) by {
                if sv(handoff_titles@).contains(t) {
                    let m = choose|m: int| 0 <= m < sv(handoff_titles@).len() && sv(handoff_titles@)[m] == t;
                    if m < old_titles.len() {
                        assert(old_titles[m] == t);
                        assert(old_titles.contains(t));
                        let q = choose|q: int| 0 <= q < pre.len() && title_variants_spec(#[trigger] pre[q]).contains(t);
                        assert(cur[q] == pre[q]);
                    } else {
                        assert(vs[m - old_titles.len()] == t);
                        assert(title_variants_spec(cur[i as int]).contains(t));
                    }
                }
                if is_handoff_title(cur, t) {
                    let q = choose|q: int| 0 <= q < cur.len() && title_variants_spec(#[trigger] cur[q]).contains(t);
                    if q < i {
                        assert(pre[q] == cur[q]);
                        assert(is_handoff_title(pre, t));
                        assert(old_titles.contains(t));
                        let m = choose|m: int| 0 <= m < old_titles.len() && old_titles[m] == t;
                        assert(sv(handoff_titles@)[m] == t);
                    } else {
                        let m = choose|m: int| 0 <= m < vs.len() && vs[m] == t;
                        assert(sv(handoff_titles@)[old_titles.len() + m] == t);
                    }
                }
            }
        }
        if contains_any(&snapshot.active_titles, item) {
            assert(count_captured(cur, snap) == count_captured(pre, snap) + 1);
            assert(missing_items(cur, snap) == missing_items(pre, snap));
            captured_count = captured_count + 1;
        } else if contains_any(&snapshot.closed_titles, item) {
            assert(count_captured(cur, snap) == count_captured(pre, snap));
            assert(missing_items(cur, snap) == missing_items(pre, snap));
            let ghost before = sv(closed_upstream@);
            closed_upstream.push(item.todo_title());
            assert(sv(closed_upstream@) =~= before.push(todo_title_spec(*item)));
        } else {
            assert(count_captured(cur, snap) == count_captured(pre, snap));
            assert(missing_items(cur, snap) == missing_items(pre, snap).push(*item));
            if sync {
                let ghost before = creates@.map_values(|c: ReconcileCreate| create_view(c));
                creates.push(ReconcileCreate { title: item.todo_title(), priority: item.priority.clone() });
                assert(creates@.map_values(|c: ReconcileCreate| create_view(c)) =~= before.push(
                    (todo_title_spec(*item), ov(item.priority)),
                ));
                captured_count = captured_count + 1;
                created_count = created_count + 1;
            } else {
                let ghost before = sv(not_captured@);
                not_captured.push(item.todo_title());
                assert(sv(not_captured@) =~= before.push(todo_title_spec(*item)));
            }
        }
        i = i + 1;
    }
    assert(a.subrange(0, active@.len() as int) =~= a);
    let mut orphaned: Vec<String> = Vec::new();
    let mut j: usize = 0;
    while j < snapshot.active_titles.len()
        invariant
            j <= snapshot.active_titles@.len(),
            forall|t: Seq<char>| sv(handoff_titles@).contains(t) <==> is_handoff_title(a, t),
            sv(orphaned@) == orphaned_titles(sv(snapshot.active_titles@).subrange(0, j as int), a),
        decreases snapshot.active_titles.len() - j,
    {
        let ghost titles = sv(snapshot.active_titles@);
        assert(titles.subrange(0, j + 1).drop_last() =~= titles.subrange(0, j as int));
        assert(titles.subrange(0, j + 1).last() == snapshot.active_titles@[j as int]@);
        let title = &snapshot.active_titles[j];
        if !vec_contains_str(&handoff_titles, title.as_str()) {
            let ghost before = sv(orphaned@);
            orphaned.push(title.clone());
            assert(sv(orphaned@) =~= before.push(title@));
        }
        j = j + 1;
    }
    assert(sv(snapshot.active_titles@).subrange(0, snapshot.active_titles@.len() as int) =~= sv(
        snapshot.active_titles@,
    ));
    ReconcilePlan {
        creates,
        report: ReconcileReport {
            project: owned(project),
            captured_count,
            created_count,
            not_captured,
            orphaned,
            closed_upstream,
        },
    }
}

} // verus!

verus! {

/// Every active item falls in exactly one class: held by the backend as an
/// active todo, closed upstream, or missing. So a reconciliation accounts for
/// each active item once: `captured + closed_upstream + missing` is the number
/// of active items.
pub proof fn law_reconcile_accounts_for_each_item(items: Seq<HandoffItem>, snapshot: TodoSnapshot)
    ensures
        count_captured(active_seq(items), snapshot) + closed_items(active_seq(items), snapshot).len()
            + missing_items(active_seq(items), snapshot).len() == active_seq(items).len(),
{
    lemma_partition(active_seq(items), snapshot);
}

proof fn lemma_partition(a: Seq<HandoffItem>, snap: TodoSnapshot)
    ensures
        count_captured(a, snap) + closed_items(a, snap).len() + missing_items(a, snap).len() == a.len(),
    decreases a.len(),
{
    if a.len() > 0 {
        lemma_partition(a.drop_last(), snap);
    }
}

/// After a `Sync` reconciliation every active item is either captured in the
/// backend (found or created) or closed upstream; nothing is left uncaptured,
/// and one todo is created per missing item.
pub proof fn law_sync_captures_everything(items: Seq<HandoffItem>, snapshot: TodoSnapshot)
    ensures
        ({
            let a = active_seq(items);
            let missing = missing_items(a, snapshot);
            &&& (count_captured(a, snapshot) + missing.len()) + closed_items(a, snapshot).len() == a.len()
            &&& creates_for(missing).len() == missing.len()
        }),
{
    lemma_partition(active_seq(items), snapshot);
}

/// An `Audit` reconciliation creates nothing and counts only what the backend
/// already holds: the missing items are reported instead.
pub proof fn law_audit_creates_nothing(items: Seq<HandoffItem>, snapshot: TodoSnapshot)
    ensures
        ({
            let a = active_seq(items);
            &&& count_captured(a, snapshot) <= a.len()
            &&& todo_titles(missing_items(a, snapshot)).len() == missing_items(a, snapshot).len()
        }),
{
    lemma_partition(active_seq(items), snapshot);
}

/// Orphaned titles are backend titles that name no active item of the handoff.
pub proof fn law_orphans_name_no_item(titles: Seq<Seq<char>>, a: Seq<HandoffItem>)
    ensures
        forall|k: int|
            0 <= k < orphaned_titles(titles, a).len() ==> titles.contains(
                #[trigger] orphaned_titles(titles, a)[k],
            ) && !is_handoff_title(a, orphaned_titles(titles, a)[k]),
        forall|k: int|
            0 <= k < titles.len() && !is_handoff_title(a, #[trigger] titles[k]) ==> orphaned_titles(
                titles,
                a,
            ).contains(titles[k]),
    decreases titles.len(),
{
    if titles.len() > 0 {
        let pre = titles.drop_last();
        law_orphans_name_no_item(pre, a);
        let o = orphaned_titles(titles, a);
        let op = orphaned_titles(pre, a);
        assert forall|k: int| 0 <= k < o.len() implies titles.contains(#[trigger] o[k]) && !is_handoff_title(a, o[k]) by {
            if k < op.len() {
                assert(o[k] == op[k]);
                let m = choose|m: int| 0 <= m < pre.len() && pre[m] == op[k];
                assert(titles[m] == pre[m]);
            } else {
                assert(titles[titles.len() - 1] == o[k]);
            }
        }
        assert forall|k: int| 0 <= k < titles.len() && !is_handoff_title(a, #[trigger] titles[k]) implies o.contains(titles[k]) by {
            if k < titles.len() - 1 {
                assert(pre[k] == titles[k]);
                let m = choose|m: int| 0 <= m < op.len() && op[m] == pre[k];
                assert(o[m] == op[m]);
            } else {
                assert(o[o.len() - 1] == titles[k]);
            }
        }
    }
}

/// The titles under which the backend is taken to hold an item: its title
/// and its todo title, each as it is and with the ` [BLOCKED]` suffix
/// (a todo title that already ends with it is not suffixed twice), the
/// empty ones left out, each once.
pub proof fn law_title_variants_cover_blocked_forms(item: HandoffItem)
    ensures
        item.title@.len() > 0 ==> title_variants_spec(item).contains(item.title@),
        title_variants_spec(item).contains(item.title@ + " [BLOCKED]"@),
        todo_title_spec(item).len() > 0 ==> title_variants_spec(item).contains(todo_title_spec(item)),
        crate::text::ends_with(todo_title_spec(item), " [BLOCKED]"@) || title_variants_spec(item).contains(
            todo_title_spec(item) + " [BLOCKED]"@,
        ),
        forall|j: int|
            0 <= j < title_variants_spec(item).len() ==> {
                let v = #[trigger] title_variants_spec(item)[j];
                &&& v.len() > 0
                &&& (v == item.title@ || v == item.title@ + " [BLOCKED]"@ || v == todo_title_spec(item) || v
                    == todo_title_spec(item) + " [BLOCKED]"@)
            },
        forall|i: int, j: int|
            0 <= i < j < title_variants_spec(item).len() ==> title_variants_spec(item)[i]
                != title_variants_spec(item)[j],
{
    reveal_strlit(" [BLOCKED]");
    let title = item.title@;
    let todo = todo_title_spec(item);
    let sfx = " [BLOCKED]"@;
    let bt = if crate::text::ends_with(todo, sfx) {
        todo
    } else {
        todo + sfx
    };
    let s = seq![title, title + sfx, todo, bt];
    assert(title_variants_spec(item) == crate::items::dedup_nonempty(s));
    lemma_dedup_nonempty(s);
    assert(s[0] == title && s[1] == title + sfx && s[2] == todo && s[3] == bt);
    assert((title + sfx).len() > 0);
    if !crate::text::ends_with(todo, sfx) {
        assert(bt.len() > 0);
    }
    assert forall|j: int| 0 <= j < title_variants_spec(item).len() implies {
        let v = #[trigger] title_variants_spec(item)[j];
        &&& v.len() > 0
        &&& (v == item.title@ || v == item.title@ + " [BLOCKED]"@ || v == todo_title_spec(item) || v
            == todo_title_spec(item) + " [BLOCKED]"@)
    } by {
        let v = title_variants_spec(item)[j];
        assert(s.contains(v));
    }
}

proof fn lemma_missing_not_known(a: Seq<HandoffItem>, snap: TodoSnapshot, y: HandoffItem)
    requires
        missing_items(a, snap).contains(y) || closed_items(a, snap).contains(y),
    ensures
        !known_as(sv(snap.active_titles@), y),
    decreases a.len(),
{
    if a.len() > 0 {
        let d = a.drop_last();
        if missing_items(d, snap).contains(y) || closed_items(d, snap).contains(y) {
            lemma_missing_not_known(d, snap, y);
        } else {
            let m = missing_items(a, snap);
            let c = closed_items(a, snap);
            if m.contains(y) {
                let k = choose|k: int| 0 <= k < m.len() && m[k] == y;
                if k < missing_items(d, snap).len() {
                    assert(missing_items(d, snap).contains(y));
                }
            } else {
                let k = choose|k: int| 0 <= k < c.len() && c[k] == y;
                if k < closed_items(d, snap).len() {
                    assert(closed_items(d, snap).contains(y));
                }
            }
        }
    }
}

/// An active item whose title, with the ` [BLOCKED]` suffix, is an active
/// backend title is held by the backend: it is counted captured (not
/// missing, not closed upstream, so nothing is created for it), and that
/// backend title is not reported orphaned.
pub proof fn law_blocked_title_is_captured(items: Seq<HandoffItem>, snapshot: TodoSnapshot, i: int)
    requires
        0 <= i < active_seq(items).len(),
        sv(snapshot.active_titles@).contains(active_seq(items)[i].title@ + " [BLOCKED]"@),
    ensures
        known_as(sv(snapshot.active_titles@), active_seq(items)[i]),
        !missing_items(active_seq(items), snapshot).contains(active_seq(items)[i]),
        !closed_items(active_seq(items), snapshot).contains(active_seq(items)[i]),
        !orphaned_titles(sv(snapshot.active_titles@), active_seq(items)).contains(
            active_seq(items)[i].title@ + " [BLOCKED]"@,
        ),
{
    let a = active_seq(items);
    let x = a[i];
    let t = x.title@ + " [BLOCKED]"@;
    law_title_variants_cover_blocked_forms(x);
    let vs = title_variants_spec(x);
    let j = choose|j: int| 0 <= j < vs.len() && vs[j] == t;
    assert(sv(snapshot.active_titles@).contains(vs[j]));
    assert(known_as(sv(snapshot.active_titles@), x));
    if missing_items(a, snapshot).contains(x) || closed_items(a, snapshot).contains(x) {
        lemma_missing_not_known(a, snapshot, x);
    }
    assert(is_handoff_title(a, t));
    law_orphans_name_no_item(sv(snapshot.active_titles@), a);
    let o = orphaned_titles(sv(snapshot.active_titles@), a);
    if o.contains(t) {
        let k = choose|k: int| 0 <= k < o.len() && o[k] == t;
        assert(!is_handoff_title(a, o[k]));
    }
}

/// The numeric priority the todo backend uses for a handoff priority.
pub open spec fn map_priority_spec(priority: Option<Seq<char>>) -> u8 {
    if priority == Some("P0"@) {
        5
    } else if priority == Some("P1"@) {
        4
    } else if priority == Some("P2"@) {
        3
    } else {
        1
    }
}

/// Maps `P0`/`P1`/`P2` to the backend priorities 5/4/3, anything else to 1.
pub fn map_priority(priority: Option<&str>) -> (r: u8)
    ensures
        r == map_priority_spec(match priority {
            Some(p) => Some(p@),
            None => None,
        }),
{
    match priority {
        Some(p) => {
            if str_eq(p, "P0") {
                5
            } else if str_eq(p, "P1") {
                4
            } else if str_eq(p, "P2") {
                3
            } else {
                1
            }
        },
        None => 1,
    }
}

/// The non-empty titles, each once, in sorted order.
pub fn unique_titles(titles: Vec<String>) -> (r: Vec<String>)
    ensures
        strictly_sorted(sv(r@)),
        forall|t: Seq<char>| sv(r@).contains(t) <==> (t.len() > 0 && sv(titles@).contains(t)),
{
    let mut out: Vec<String> = Vec::new();
    let mut i: usize = 0;
    while i < titles.len()
        invariant
            i <= titles@.len(),
            strictly_sorted(sv(out@)),
            forall|t: Seq<char>|
                sv(out@).contains(t) <==> (t.len() > 0 && sv(titles@).subrange(0, i as int).contains(t)),
        decreases titles.len() - i,
    {
        let ghost prev = sv(titles@).subrange(0, i as int);
        assert(sv(titles@).subrange(0, i + 1) =~= prev.push(titles@[i as int]@));
        let t = &titles[i];
        let ghost before = sv(out@);
        if t.as_str().unicode_len() > 0 {
            insert_sorted_unique(&mut out, t.clone());
        }
        proof {
            assert forall|s: Seq<char>| sv(out@).contains(s) <==> (s.len() > 0 && prev.push(t@).contains(s)) by {
                if prev.push(t@).contains(s) {
                    let q = choose|q: int| 0 <= q < prev.push(t@).len() && prev.push(t@)[q] == s;
                    if q < prev.len() {
                        assert(prev[q] == s);
                    }
                }
                if prev.contains(s) {
                    let q = choose|q: int| 0 <= q < prev.len() && prev[q] == s;
                    assert(prev.push(t@)[q] == s);
                }
                if s == t@ {
                    assert(prev.push(t@)[prev.len() as int] == s);
                }
            }
        }
        i = i + 1;
    }
    assert(sv(titles@).subrange(0, titles@.len() as int) =~= sv(titles@));
    out
}

/// The state a todo can be listed in.
#[derive(Debug, Clone, Copy, PartialEq, Eq)]
pub enum TodoStatus {
    Pending,
    InProgress,
    Completed,
    Cancelled,
}

/// A status as the backend's command line spells it.
pub open spec fn status_text(s: TodoStatus) -> Seq<char> {
    match s {
        TodoStatus::Pending => "pending"@,
        TodoStatus::InProgress => "in_progress"@,
        TodoStatus::Completed => "completed"@,
        TodoStatus::Cancelled => "cancelled"@,
    }
}

impl TodoStatus {
    /// The status as the backend's command line spells it.
    pub fn as_str(self) -> (r: &'static str)
        ensures
            r@ == status_text(self),
    {
        match self {
            TodoStatus::Pending => "pending",
            TodoStatus::InProgress => "in_progress",
            TodoStatus::Completed => "completed",
            TodoStatus::Cancelled => "cancelled",
        }
    }
}

/// The todo backend client: it runs the backend's command line in a directory.
#[derive(Debug, Clone)]
pub struct DoobClient {
    pub cwd: String,
}

impl DoobClient {
    /// A client working in `cwd`.
    pub fn new(cwd: &str) -> (r: DoobClient)
        ensures
            r.cwd@ == cwd@,
    {
        DoobClient { cwd: owned(cwd) }
    }

    /// The arguments of the backend command that lists a project's todos
    /// in one state, as JSON.
    pub fn list_args(project: &str, status: TodoStatus) -> (r: Vec<String>)
        ensures
            sv(r@) == seq!["todo"@, "list"@, "-p"@, project@, "--status"@, status_text(status), "--json"@],
    {
        let r = vec![
            owned("todo"),
            owned("list"),
            owned("-p"),
            owned(project),
            owned("--status"),
            owned(status.as_str()),
            owned("--json"),
        ];
        assert(sv(r@) =~= seq!["todo"@, "list"@, "-p"@, project@, "--status"@, status_text(status), "--json"@]);
        r
    }

    /// The arguments of the backend command that adds a todo: its title,
    /// priority and project, and its tags joined by commas when there are any.
    pub fn add_args(project: &str, title: &str, priority: u8, tags: &Vec<String>) -> (r: Vec<String>)
        ensures
            sv(r@) == seq!["todo"@, "add"@, title@, "--priority"@, crate::text::dec(priority as nat), "-p"@, project@]
                + if tags@.len() > 0 {
                seq!["-t"@, crate::text::join(sv(tags@), ","@)]
            } else {
                Seq::empty()
            },
    {
        let mut p = String::new();
        crate::text::push_decimal(&mut p, priority as usize);
        assert(p@ =~= crate::text::dec(priority as nat));
        let mut r = vec![owned("todo"), owned("add"), owned(title), owned("--priority"), p, owned("-p"), owned(project)];
        let ghost base = sv(r@);
        assert(base =~= seq!["todo"@, "add"@, title@, "--priority"@, crate::text::dec(priority as nat), "-p"@, project@]);
        if tags.len() > 0 {
            let mut joined = String::new();
            let mut k: usize = 0;
            while k < tags.len()
                invariant
                    k <= tags@.len(),
                    joined@ == crate::text::join(sv(tags@).take(k as int), ","@),
                decreases tags.len() - k,
            {
                assert(sv(tags@).take(k + 1).drop_last() =~= sv(tags@).take(k as int));
                if k > 0 {
                    joined.append(",");
                } else {
                    assert(sv(tags@).take(1) =~= seq![tags@[0]@]);
                }
                joined.append(tags[k].as_str());
                k = k + 1;
            }
            assert(sv(tags@).take(tags@.len() as int) =~= sv(tags@));
            r.push(owned("-t"));
            r.push(joined);
            assert(sv(r@) =~= base + seq!["-t"@, crate::text::join(sv(tags@), ","@)]);
        } else {
            assert(sv(r@) =~= base + Seq::<Seq<char>>::empty());
        }
        r
    }
}

/// The titles a listing holds: the non-empty contents, in order.
pub open spec fn listed_titles(contents: Seq<Seq<char>>) -> Seq<Seq<char>>
    decreases contents.len(),
{
    if contents.len() == 0 {
        Seq::empty()
    } else if contents.last().len() > 0 {
        listed_titles(contents.drop_last()).push(contents.last())
    } else {
        listed_titles(contents.drop_last())
    }
}

/// The titles of a listing: its todos' contents, without empty ones.
pub fn titles_from_contents(contents: Vec<String>) -> (r: Vec<String>)
    ensures
        sv(r@) == listed_titles(sv(contents@)),
{
    let mut r: Vec<String> = Vec::new();
    let mut k: usize = 0;
    while k < contents.len()
        invariant
            k <= contents@.len(),
            sv(r@) == listed_titles(sv(contents@).take(k as int)),
        decreases contents.len() - k,
    {
        assert(sv(contents@).take(k + 1).drop_last() =~= sv(contents@).take(k as int));
        assert(sv(contents@).take(k + 1).last() == contents@[k as int]@);
        if contents[k].as_str().unicode_len() > 0 {
            let ghost before = sv(r@);
            r.push(contents[k].clone());
            assert(sv(r@) =~= before.push(contents@[k as int]@));
        }
        k = k + 1;
    }
    assert(sv(contents@).take(contents@.len() as int) =~= sv(contents@));
    r
}

/// Appends all strings of `b` to `a`.
fn extend_strings(a: &mut Vec<String>, b: &Vec<String>)
    ensures
        sv(final(a)@) == sv(old(a)@) + sv(b@),
{
    let mut i: usize = 0;
    let ghost start = sv(a@);
    while i < b.len()
        invariant
            i <= b@.len(),
            sv(a@) == start + sv(b@).subrange(0, i as int),
        decreases b.len() - i,
    {
        let ghost before = sv(a@);
        a.push(b[i].clone());
        assert(sv(a@) =~= before.push(b@[i as int]@));
        assert(start + sv(b@).subrange(0, i + 1) =~= (start + sv(b@).subrange(0, i as int)).push(
            b@[i as int]@,
        ));
        i = i + 1;
    }
    assert(sv(b@).subrange(0, b@.len() as int) =~= sv(b@));
}

impl TodoSnapshot {
    /// The snapshot of a backend from its todo lists by status: pending and
    /// in-progress titles are active, completed and cancelled ones closed.
    pub fn from_status_lists(
        pending: &Vec<String>,
        in_progress: &Vec<String>,
        completed: &Vec<String>,
        cancelled: &Vec<String>,
    ) -> (r: TodoSnapshot)
        ensures
            strictly_sorted(sv(r.active_titles@)),
            strictly_sorted(sv(r.closed_titles@)),
            forall|t: Seq<char>|
                sv(r.active_titles@).contains(t) <==> (t.len() > 0 && (sv(pending@).contains(t) || sv(
                    in_progress@,
                ).contains(t))),
            forall|t: Seq<char>|
                sv(r.closed_titles@).contains(t) <==> (t.len() > 0 && (sv(completed@).contains(t) || sv(
                    cancelled@,
                ).contains(t))),
    {
        let mut active: Vec<String> = Vec::new();
        extend_strings(&mut active, pending);
        extend_strings(&mut active, in_progress);
        let mut closed: Vec<String> = Vec::new();
        extend_strings(&mut closed, completed);
        extend_strings(&mut closed, cancelled);
        let ghost av = sv(active@);
        let ghost cv = sv(closed@);
        assert(av =~= sv(pending@) + sv(in_progress@));
        assert(cv =~= sv(completed@) + sv(cancelled@));
        let r = TodoSnapshot { active_titles: unique_titles(active), closed_titles: unique_titles(closed) };
        assert forall|t: Seq<char>| av.contains(t) <==> (sv(pending@).contains(t) || sv(in_progress@).contains(t)) by {
            if av.contains(t) {
                let k = choose|k: int| 0 <= k < av.len() && av[k] == t;
                if k < sv(pending@).len() {
                    assert(sv(pending@)[k] == t);
                } else {
                    assert(sv(in_progress@)[k - sv(pending@).len()] == t);
                }
            }
            if sv(pending@).contains(t) {
                let k = choose|k: int| 0 <= k < sv(pending@).len() && sv(pending@)[k] == t;
                assert(av[k] == t);
            }
            if sv(in_progress@).contains(t) {
                let k = choose|k: int| 0 <= k < sv(in_progress@).len() && sv(in_progress@)[k] == t;
                assert(av[k + sv(pending@).len()] == t);
            }
        }
        assert forall|t: Seq<char>| cv.contains(t) <==> (sv(completed@).contains(t) || sv(cancelled@).contains(t)) by {
            if cv.contains(t) {
                let k = choose|k: int| 0 <= k < cv.len() && cv[k] == t;
                if k < sv(completed@).len() {
                    assert(sv(completed@)[k] == t);
                } else {
                    assert(sv(cancelled@)[k - sv(completed@).len()] == t);
                }
            }
            if sv(completed@).contains(t) {
                let k = choose|k: int| 0 <= k < sv(completed@).len() && sv(completed@)[k] == t;
                assert(cv[k] == t);
            }
            if sv(cancelled@).contains(t) {
                let k = choose|k: int| 0 <= k < sv(cancelled@).len() && sv(cancelled@)[k] == t;
                assert(cv[k + sv(completed@).len()] == t);
            }
        }
        r
    }
}

} // verus!
