//! The decisions of a working session: database overrides of item state,
//! the review-on-wake list, triage buckets, the session state written at
//! close, and the reports printed along the way.

use vstd::prelude::*;

use crate::items::{active_seq, inferred_priority_spec, ov};
use crate::model::{ExtraEntry, Handoff, HandoffItem, HandoffState, LogEntry, CommitRef, ReconcileMode, ReconcileReport};
use crate::store::HandoffRow;
use crate::text::{dec, owned, push_decimal, seq_le, seq_lt, str_eq, sv, lemma_seq_lt_trans, lemma_seq_lt_trichotomy};

verus! {

/// The database column a row overrides.
pub enum RowField {
    Priority,
    Status,
    Completed,
}

pub open spec fn row_value(r: HandoffRow, f: RowField) -> Seq<char> {
    match f {
        RowField::Priority => r.priority@,
        RowField::Status => r.status@,
        RowField::Completed => r.completed@,
    }
}

/// The value a field of the item with id `id` ends with after the rows are
/// applied in order: each row for that id with a non-empty value sets it.
pub open spec fn override_field(
    rows: Seq<HandoffRow>,
    id: Seq<char>,
    init: Option<Seq<char>>,
    f: RowField,
) -> Option<Seq<char>>
    decreases rows.len(),
{
    if rows.len() == 0 {
        init
    } else {
        let r = rows.last();
        if r.id@ == id && row_value(r, f).len() > 0 {
            Some(row_value(r, f))
        } else {
            override_field(rows.drop_last(), id, init, f)
        }
    }
}

/// Item `j` is the first item that carries its id (the one rows apply to).
pub open spec fn first_with_id(items: Seq<HandoffItem>, j: int) -> bool {
    forall|k: int| 0 <= k < j ==> (#[trigger] items[k]).id@ != items[j].id@
}

/// `b` is `a` with at most its priority, status and completion changed.
pub open spec fn same_but_state(a: HandoffItem, b: HandoffItem) -> bool {
    &&& b.id == a.id
    &&& b.doob_uuid == a.doob_uuid
    &&& b.name == a.name
    &&& b.title == a.title
    &&& b.description == a.description
    &&& b.files == a.files
    &&& b.issue == a.issue
    &&& b.extra == a.extra
    &&& b.extra_fields == a.extra_fields
}

/// `b` is item `j` of `items` after the rows are applied.
pub open spec fn row_applied(items: Seq<HandoffItem>, j: int, rows: Seq<HandoffRow>, b: HandoffItem) -> bool {
    let a = items[j];
    &&& same_but_state(a, b)
    &&& if first_with_id(items, j) {
        &&& ov(b.priority) == override_field(rows, a.id@, ov(a.priority), RowField::Priority)
        &&& ov(b.status) == override_field(rows, a.id@, ov(a.status), RowField::Status)
        &&& ov(b.completed) == override_field(rows, a.id@, ov(a.completed), RowField::Completed)
    } else {
        &&& ov(b.priority) == ov(a.priority)
        &&& ov(b.status) == ov(a.status)
        &&& ov(b.completed) == ov(a.completed)
    }
}

/// The position of the first item with id `id`, if any.
fn find_item(items: &Vec<HandoffItem>, id: &str) -> (r: Option<usize>)
    ensures
        match r {
            Some(k) => k < items@.len() && items@[k as int].id@ == id@ && first_with_id(items@, k as int),
            None => forall|k: int| 0 <= k < items@.len() ==> (#[trigger] items@[k]).id@ != id@,
        },
{
    let mut k: usize = 0;
    while k < items.len()
        invariant
            k <= items@.len(),
            forall|q: int| 0 <= q < k ==> (#[trigger] items@[q]).id@ != id@,
        decreases items.len() - k,
    {
        if str_eq(items[k].id.as_str(), id) {
            return Some(k);
        }
        k = k + 1;
    }
    None
}

/// Applies the database rows to the handoff: for each row, in order, the
/// first item with the row's id takes the row's priority, status and
/// completion date where those are not empty. Nothing else changes.
pub fn apply_handoff_rows(handoff: &mut Handoff, rows: &[HandoffRow])
    ensures
        final(handoff).items@.len() == old(handoff).items@.len(),
        forall|j: int|
            0 <= j < old(handoff).items@.len() ==> row_applied(
                old(handoff).items@,
                j,
                rows@,
                #[trigger] final(handoff).items@[j],
            ),
        final(handoff).project == old(handoff).project,
        final(handoff).id == old(handoff).id,
        final(handoff).updated == old(handoff).updated,
        final(handoff).log == old(handoff).log,
        final(handoff).extra == old(handoff).extra,
{
    let ghost items0 = handoff.items@;
    let mut r: usize = 0;
    while r < rows.len()
        invariant
            r <= rows@.len(),
            handoff.items@.len() == items0.len(),
            handoff.project == old(handoff).project,
            handoff.id == old(handoff).id,
            handoff.updated == old(handoff).updated,
            handoff.log == old(handoff).log,
            handoff.extra == old(handoff).extra,
            items0 == old(handoff).items@,
            forall|j: int|
                0 <= j < items0.len() ==> row_applied(
                    items0,
                    j,
                    rows@.take(r as int),
                    #[trigger] handoff.items@[j],
                ),
        decreases rows.len() - r,
    {
        let row = &rows[r];
        let ghost before = handoff.items@;
        let ghost cur = rows@.take(r + 1);
        assert(cur.drop_last() =~= rows@.take(r as int));
        assert(cur.last() == *row);
        assert forall|j: int| 0 <= j < items0.len() implies (#[trigger] before[j]).id@ == items0[j].id@ by {
            assert(row_applied(items0, j, rows@.take(r as int), before[j]));
        }
        match find_item(&handoff.items, row.id.as_str()) {
            Some(k) => {
                let mut it = handoff.items.remove(k);
                if row.priority.as_str().unicode_len() > 0 {
                    it.priority = Some(row.priority.clone());
                }
                if row.status.as_str().unicode_len() > 0 {
                    let same = match &it.status {
                        Some(s) => str_eq(s.as_str(), row.status.as_str()),
                        None => false,
                    };
                    if !same {
                        it.status = Some(row.status.clone());
                    }
                }
                if row.completed.as_str().unicode_len() > 0 {
                    it.completed = Some(row.completed.clone());
                }
                handoff.items.insert(k, it);
                proof {
                    assert(handoff.items@ =~= before.update(k as int, it));
                    assert(first_with_id(items0, k as int)) by {
                        assert forall|q: int| 0 <= q < k implies (#[trigger] items0[q]).id@ != items0[k as int].id@ by {
                            assert(before[q].id@ == items0[q].id@);
                        }
                    }
                    assert forall|j: int| 0 <= j < items0.len() implies row_applied(
                        items0,
                        j,
                        cur,
                        #[trigger] handoff.items@[j],
                    ) by {
                        assert(row_applied(items0, j, rows@.take(r as int), before[j]));
                        if j != k && first_with_id(items0, j) {
                            if items0[j].id@ == row.id@ {
                                if j < k {
                                    assert(before[j].id@ == items0[j].id@);
                                } else {
                                    assert(items0[k as int].id@ == items0[j].id@);
                                }
                            }
                        }
                    }
                }
            },
            None => {
                proof {
                    assert forall|j: int| 0 <= j < items0.len() implies row_applied(
                        items0,
                        j,
                        cur,
                        #[trigger] handoff.items@[j],
                    ) by {
                        assert(row_applied(items0, j, rows@.take(r as int), before[j]));
                        assert(before[j].id@ != row.id@);
                    }
                }
            },
        }
        r = r + 1;
    }
    assert(rows@.take(rows@.len() as int) =~= rows@);
}

/// An optional string, or `unknown`.
pub open spec fn or_unknown(o: Option<Seq<char>>) -> Seq<char> {
    match o {
        Some(s) => s,
        None => "unknown"@,
    }
}

/// A human edit that no one has reviewed yet.
pub open spec fn unreviewed_human_edit(e: ExtraEntry) -> bool {
    ov(e.entry_type) == Some("human-edit"@) && match ov(e.reviewed) {
        None => true,
        Some(r) => r.len() == 0,
    }
}

/// The review lines of one entry of an item: what was edited, and the
/// entry's note when it has one.
pub open spec fn entry_review_lines(item: HandoffItem, e: ExtraEntry) -> Seq<Seq<char>> {
    if !unreviewed_human_edit(e) {
        Seq::empty()
    } else {
        let head = "- ["@ + item.id@ + "] \""@ + item.title@ + "\" — human edited `"@ + or_unknown(
            ov(e.field),
        ) + "` -> `"@ + or_unknown(ov(e.value)) + "` on "@ + or_unknown(ov(e.date));
        match ov(e.note) {
            Some(n) => if n.len() > 0 {
                seq![head, "  "@ + n]
            } else {
                seq![head]
            },
            None => seq![head],
        }
    }
}

/// The review lines of the first entries of an item.
pub open spec fn item_review_lines(item: HandoffItem, es: Seq<ExtraEntry>) -> Seq<Seq<char>>
    decreases es.len(),
{
    if es.len() == 0 {
        Seq::empty()
    } else {
        item_review_lines(item, es.drop_last()) + entry_review_lines(item, es.last())
    }
}

/// The review lines of a list of items, in item and entry order.
pub open spec fn review_lines(items: Seq<HandoffItem>) -> Seq<Seq<char>>
    decreases items.len(),
{
    if items.len() == 0 {
        Seq::empty()
    } else {
        review_lines(items.drop_last()) + item_review_lines(items.last(), items.last().extra@)
    }
}

/// Is the entry a human edit that no one has reviewed yet?
pub fn is_unreviewed_human_edit(entry: &ExtraEntry) -> (r: bool)
    ensures
        r == unreviewed_human_edit(*entry),
{
    let human = match &entry.entry_type {
        Some(t) => str_eq(t.as_str(), "human-edit"),
        None => false,
    };
    human && match &entry.reviewed {
        None => true,
        Some(r) => r.as_str().unicode_len() == 0,
    }
}

fn or_unknown_exec(o: &Option<String>) -> (r: String)
    ensures
        r@ == or_unknown(ov(*o)),
{
    match o {
        Some(s) => s.clone(),
        None => owned("unknown"),
    }
}

/// Appends the review lines of one entry.
fn push_entry_review(lines: &mut Vec<String>, item: &HandoffItem, e: &ExtraEntry)
    ensures
        sv(final(lines)@) == sv(old(lines)@) + entry_review_lines(*item, *e),
{
    let ghost before = sv(lines@);
    if !is_unreviewed_human_edit(e) {
        assert(sv(lines@) =~= before + entry_review_lines(*item, *e));
        return;
    }
    let mut head = owned("- [");
    head.append(item.id.as_str());
    head.append("] \"");
    head.append(item.title.as_str());
    head.append("\" — human edited `");
    head.append(or_unknown_exec(&e.field).as_str());
    head.append("` -> `");
    head.append(or_unknown_exec(&e.value).as_str());
    head.append("` on ");
    head.append(or_unknown_exec(&e.date).as_str());
    lines.push(head);
    match &e.note {
        Some(n) => {
            if n.as_str().unicode_len() > 0 {
                let mut line = owned("  ");
                line.append(n.as_str());
                lines.push(line);
            }
        },
        None => {},
    }
    assert(sv(lines@) =~= before + entry_review_lines(*item, *e));
}

/// The review-on-wake list: for each unreviewed human edit of an item, a
/// line saying what was edited, followed by the edit's note when it has one.
pub fn collect_review_on_wake(handoff: &Handoff) -> (r: Vec<String>)
    ensures
        sv(r@) == review_lines(handoff.items@),
{
    let mut lines: Vec<String> = Vec::new();
    let mut i: usize = 0;
    while i < handoff.items.len()
        invariant
            i <= handoff.items@.len(),
            sv(lines@) == review_lines(handoff.items@.take(i as int)),
        decreases handoff.items.len() - i,
    {
        let item = &handoff.items[i];
        assert(handoff.items@.take(i + 1).drop_last() =~= handoff.items@.take(i as int));
        let ghost base = sv(lines@);
        let mut k: usize = 0;
        while k < item.extra.len()
            invariant
                k <= item.extra@.len(),
                sv(lines@) == base + item_review_lines(*item, item.extra@.take(k as int)),
            decreases item.extra.len() - k,
        {
            assert(item.extra@.take(k + 1).drop_last() =~= item.extra@.take(k as int));
            push_entry_review(&mut lines, item, &item.extra[k]);
            assert(base + item_review_lines(*item, item.extra@.take(k as int)) + entry_review_lines(
                *item,
                item.extra@[k as int],
            ) =~= base + item_review_lines(*item, item.extra@.take(k + 1)));
            k = k + 1;
        }
        assert(item.extra@.take(item.extra@.len() as int) =~= item.extra@);
        i = i + 1;
    }
    assert(handoff.items@.take(handoff.items@.len() as int) =~= handoff.items@);
    lines
}

/// How triage lists an item: id, name (`-` when unset), title and status
/// (`open` when unset), then its description when it has one.
pub open spec fn triage_line(item: HandoffItem) -> Seq<char> {
    let head = "- ["@ + item.id@ + "] ["@ + match ov(item.name) {
        Some(n) => n,
        None => "-"@,
    } + "] \""@ + item.title@ + "\" -> "@ + match ov(item.status) {
        Some(s) => s,
        None => "open"@,
    };
    match ov(item.description) {
        Some(d) => if d.len() > 0 {
            head + ": "@ + d
        } else {
            head
        },
        None => head,
    }
}

/// The triage line of an item.
pub fn format_triage_item(item: &HandoffItem) -> (r: String)
    ensures
        r@ == triage_line(*item),
{
    let mut line = owned("- [");
    line.append(item.id.as_str());
    line.append("] [");
    match &item.name {
        Some(n) => line.append(n.as_str()),
        None => line.append("-"),
    }
    line.append("] \"");
    line.append(item.title.as_str());
    line.append("\" -> ");
    match &item.status {
        Some(s) => line.append(s.as_str()),
        None => line.append("open"),
    }
    match &item.description {
        Some(d) => {
            if d.as_str().unicode_len() > 0 {
                line.append(": ");
                line.append(d.as_str());
            }
        },
        None => {},
    }
    line
}

/// Triage order: by inferred priority, then by id.
pub open spec fn triage_le(a: HandoffItem, b: HandoffItem) -> bool {
    let pa = inferred_priority_spec(a);
    let pb = inferred_priority_spec(b);
    seq_lt(pa, pb) || (pa == pb && seq_le(a.id@, b.id@))
}

/// Stable insertion of `x` behind every item that sorts no later than it.
pub open spec fn triage_insert(s: Seq<HandoffItem>, x: HandoffItem) -> Seq<HandoffItem>
    decreases s.len(),
{
    if s.len() == 0 {
        seq![x]
    } else if triage_le(s.last(), x) {
        s.push(x)
    } else {
        triage_insert(s.drop_last(), x).push(s.last())
    }
}

/// The items in triage order (a stable sort).
pub open spec fn triage_sort(s: Seq<HandoffItem>) -> Seq<HandoffItem>
    decreases s.len(),
{
    if s.len() == 0 {
        Seq::<HandoffItem>::empty()
    } else {
        triage_insert(triage_sort(s.drop_last()), s.last())
    }
}

/// Which bucket an item of a given priority goes to: 0 for P0, 1 for P1,
/// 2 for anything else.
pub open spec fn bucket_of(p: Seq<char>) -> nat {
    if p == "P0"@ {
        0
    } else if p == "P1"@ {
        1
    } else {
        2
    }
}

/// The triage lines of the items that go to bucket `b`, in order.
pub open spec fn bucket_lines(s: Seq<HandoffItem>, b: nat) -> Seq<Seq<char>>
    decreases s.len(),
{
    if s.len() == 0 {
        Seq::empty()
    } else if bucket_of(inferred_priority_spec(s.last())) == b {
        bucket_lines(s.drop_last(), b).push(triage_line(s.last()))
    } else {
        bucket_lines(s.drop_last(), b)
    }
}

/// The triage lines of the active items, by priority.
#[derive(Debug, Default)]
pub struct TriageBuckets {
    pub p0: Vec<String>,
    pub p1: Vec<String>,
    pub p2: Vec<String>,
}

proof fn lemma_triage_insert_at(s: Seq<HandoffItem>, x: HandoffItem, p: int)
    requires
        0 <= p <= s.len(),
        p == 0 || triage_le(s[p - 1], x),
        forall|j: int| p <= j < s.len() ==> !triage_le(#[trigger] s[j], x),
    ensures
        triage_insert(s, x) == s.subrange(0, p).push(x) + s.subrange(p, s.len() as int),
    decreases s.len(),
{
    if s.len() == 0 {
        assert(s.subrange(0, p).push(x) + s.subrange(p, s.len() as int) =~= seq![x]);
    } else if p == s.len() {
        assert(s.subrange(0, p).push(x) + s.subrange(p, s.len() as int) =~= s.push(x));
    } else {
        assert(!triage_le(s[s.len() - 1], x));
        let d = s.drop_last();
        assert forall|j: int| p <= j < d.len() implies !triage_le(#[trigger] d[j], x) by {
            assert(d[j] == s[j]);
        }
        if p > 0 {
            assert(d[p - 1] == s[p - 1]);
        }
        lemma_triage_insert_at(d, x, p);
        assert(d.subrange(0, p).push(x) + d.subrange(p, d.len() as int) + seq![s.last()] =~= s.subrange(
            0,
            p,
        ).push(x) + s.subrange(p, s.len() as int));
    }
}

/// `triage_le(item, x)` for an `x` given by its priority and id.
fn triage_le_exec(item: &HandoffItem, xp: &String, xid: &String) -> (r: bool)
    ensures
        r == ({
            let pa = inferred_priority_spec(*item);
            seq_lt(pa, xp@) || (pa == xp@ && seq_le(item.id@, xid@))
        }),
{
    let ip = item.inferred_priority();
    if crate::text::str_lt(ip.as_str(), xp.as_str()) {
        return true;
    }
    if !str_eq(ip.as_str(), xp.as_str()) {
        return false;
    }
    crate::text::str_lt(item.id.as_str(), xid.as_str()) || str_eq(item.id.as_str(), xid.as_str())
}

/// The active items in triage order.
fn triage_order(handoff: &Handoff) -> (r: Vec<&HandoffItem>)
    ensures
        r@.map_values(|x: &HandoffItem| *x) == triage_sort(active_seq(handoff.items@)),
{
    let active = handoff.active_items();
    let ghost a = active_seq(handoff.items@);
    let mut out: Vec<&HandoffItem> = Vec::new();
    let mut i: usize = 0;
    while i < active.len()
        invariant
            i <= active@.len(),
            active@.map_values(|x: &HandoffItem| *x) == a,
            out@.map_values(|x: &HandoffItem| *x) == triage_sort(a.subrange(0, i as int)),
        decreases active.len() - i,
    {
        let x: &HandoffItem = active[i];
        let ghost s = out@.map_values(|y: &HandoffItem| *y);
        assert(a.subrange(0, i + 1).drop_last() =~= a.subrange(0, i as int));
        assert(a.subrange(0, i + 1).last() == *x);
        let xp = x.inferred_priority();
        let xid = x.id.clone();
        let mut p: usize = out.len();
        while p > 0 && !triage_le_exec(out[p - 1], &xp, &xid)
            invariant
                p <= out@.len(),
                s == out@.map_values(|y: &HandoffItem| *y),
                xp@ == inferred_priority_spec(*x),
                xid@ == x.id@,
                forall|j: int| p <= j < s.len() ==> !triage_le(#[trigger] s[j], *x),
            decreases p,
        {
            p = p - 1;
        }
        proof {
            lemma_triage_insert_at(s, *x, p as int);
        }
        out.insert(p, x);
        assert(out@.map_values(|y: &HandoffItem| *y) =~= s.subrange(0, p as int).push(*x) + s.subrange(
            p as int,
            s.len() as int,
        ));
        i = i + 1;
    }
    assert(a.subrange(0, active@.len() as int) =~= a);
    out
}

/// Sorts the active items by inferred priority and id, and files each
/// one's triage line under P0, P1 or the rest.
pub fn classify_items(handoff: &Handoff) -> (r: TriageBuckets)
    ensures
        sv(r.p0@) == bucket_lines(triage_sort(active_seq(handoff.items@)), 0),
        sv(r.p1@) == bucket_lines(triage_sort(active_seq(handoff.items@)), 1),
        sv(r.p2@) == bucket_lines(triage_sort(active_seq(handoff.items@)), 2),
{
    let items = triage_order(handoff);
    let ghost t = items@.map_values(|x: &HandoffItem| *x);
    let mut b = TriageBuckets { p0: Vec::new(), p1: Vec::new(), p2: Vec::new() };
    let mut k: usize = 0;
    while k < items.len()
        invariant
            k <= items@.len(),
            t == items@.map_values(|x: &HandoffItem| *x),
            sv(b.p0@) == bucket_lines(t.take(k as int), 0),
            sv(b.p1@) == bucket_lines(t.take(k as int), 1),
            sv(b.p2@) == bucket_lines(t.take(k as int), 2),
        decreases items.len() - k,
    {
        let item: &HandoffItem = items[k];
        assert(t.take(k + 1).drop_last() =~= t.take(k as int));
        assert(t.take(k + 1).last() == *item);
        let line = format_triage_item(item);
        let p = item.inferred_priority();
        let ghost (b0, b1, b2) = (sv(b.p0@), sv(b.p1@), sv(b.p2@));
        if str_eq(p.as_str(), "P0") {
            b.p0.push(line);
            assert(sv(b.p0@) =~= b0.push(line@));
        } else if str_eq(p.as_str(), "P1") {
            b.p1.push(line);
            assert(sv(b.p1@) =~= b1.push(line@));
        } else {
            b.p2.push(line);
            assert(sv(b.p2@) =~= b2.push(line@));
        }
        k = k + 1;
    }
    assert(t.take(items@.len() as int) =~= t);
    b
}

/// An optional string, else the fallback.
pub open spec fn or_else(a: Option<Seq<char>>, b: Option<Seq<char>>) -> Option<Seq<char>> {
    if a is Some {
        a
    } else {
        b
    }
}

/// The session state written at close: dated today, on the current branch
/// (`unknown` when it cannot be told), with the given build, tests and
/// notes where given and the earlier state's otherwise (`unknown` for
/// build and tests when neither has them), and the files touched.
pub fn build_state(
    existing: Option<HandoffState>,
    today: &str,
    branch: Option<String>,
    build: Option<String>,
    tests: Option<String>,
    notes: Option<String>,
    touched_files: Vec<String>,
) -> (r: HandoffState)
    ensures
        ov(r.updated) == Some(today@),
        ov(r.branch) == Some(or_unknown(ov(branch))),
        ov(r.build) == Some(
            or_unknown(
                or_else(
                    ov(build),
                    match existing {
                        Some(e) => ov(e.build),
                        None => None,
                    },
                ),
            ),
        ),
        ov(r.tests) == Some(
            or_unknown(
                or_else(
                    ov(tests),
                    match existing {
                        Some(e) => ov(e.tests),
                        None => None,
                    },
                ),
            ),
        ),
        ov(r.notes) == or_else(
            ov(notes),
            match existing {
                Some(e) => ov(e.notes),
                None => None,
            },
        ),
        r.touched_files@ == touched_files@,
        ov(r.last_log) == match existing {
            Some(e) => ov(e.last_log),
            None => None,
        },
        match existing {
            Some(e) => r.extra == e.extra,
            None => r.extra.len_spec() == 0,
        },
{
    let e = match existing {
        Some(e) => e,
        None => HandoffState::default(),
    };
    let branch = match branch {
        Some(b) => b,
        None => owned("unknown"),
    };
    let build = match build {
        Some(b) => b,
        None => match e.build {
            Some(b) => b,
            None => owned("unknown"),
        },
    };
    let tests = match tests {
        Some(t) => t,
        None => match e.tests {
            Some(t) => t,
            None => owned("unknown"),
        },
    };
    let notes = match notes {
        Some(n) => Some(n),
        None => e.notes,
    };
    HandoffState {
        updated: Some(owned(today)),
        branch: Some(branch),
        build: Some(build),
        tests: Some(tests),
        notes,
        touched_files,
        last_log: e.last_log,
        extra: e.extra,
    }
}

/// The commits a closing log entry records: the given ones, else the
/// current head when it is known.
pub open spec fn close_commits(commits: Seq<Seq<char>>, head: Option<Seq<char>>) -> Seq<Seq<char>> {
    if commits.len() > 0 {
        commits
    } else {
        match head {
            Some(h) => seq![h],
            None => Seq::empty(),
        }
    }
}

/// Closes a session on the handoff: fills in the project and id prefix
/// when missing, dates it today and, given a summary, puts a log entry for
/// today first in the log (with the given commits, else the current head).
pub fn apply_close(
    handoff: &mut Handoff,
    project: &str,
    today: &str,
    summary: Option<String>,
    commits: Vec<String>,
    head: Option<String>,
)
    ensures
        ov(final(handoff).project) == (if ov(old(handoff).project) is None || ov(
            old(handoff).project,
        )->0.len() == 0 {
            Some(project@)
        } else {
            ov(old(handoff).project)
        }),
        ov(final(handoff).id) == (if ov(old(handoff).id) is None || ov(old(handoff).id)->0.len() == 0 {
            Some(crate::naming::id_prefix_spec(project@))
        } else {
            ov(old(handoff).id)
        }),
        ov(final(handoff).updated) == Some(today@),
        final(handoff).items == old(handoff).items,
        final(handoff).extra == old(handoff).extra,
        match summary {
            None => final(handoff).log == old(handoff).log,
            Some(s) => {
                &&& final(handoff).log@.len() == old(handoff).log@.len() + 1
                &&& final(handoff).log@.subrange(1, final(handoff).log@.len() as int) == old(
                    handoff,
                ).log@
                &&& ov(final(handoff).log@[0].date) == Some(today@)
                &&& final(handoff).log@[0].summary@ == s@
                &&& crate::validate::commit_views(final(handoff).log@[0].commits@) == close_commits(
                    sv(commits@),
                    ov(head),
                ).map_values(|c: Seq<char>| (false, c, None::<Seq<char>>))
                &&& final(handoff).log@[0].extra.len_spec() == 0
            },
        },
{
    handoff.ensure_project(project);
    handoff.ensure_id_prefix(project);
    handoff.updated = Some(owned(today));
    match summary {
        None => {},
        Some(s) => {
            let used: Vec<String> = if commits.len() > 0 {
                commits
            } else {
                match head {
                    Some(h) => vec![h],
                    None => Vec::new(),
                }
            };
            let ghost uv = sv(used@);
            assert(uv == close_commits(sv(commits@), ov(head))) by {
                if commits@.len() == 0 {
                    if head is Some {
                        assert(uv =~= seq![ov(head)->0]);
                    } else {
                        assert(uv =~= Seq::<Seq<char>>::empty());
                    }
                }
            }
            let mut refs: Vec<CommitRef> = Vec::new();
            let mut k: usize = 0;
            while k < used.len()
                invariant
                    k <= used@.len(),
                    uv == sv(used@),
                    crate::validate::commit_views(refs@) == uv.take(k as int).map_values(
                        |c: Seq<char>| (false, c, None::<Seq<char>>),
                    ),
                decreases used.len() - k,
            {
                let ghost before = refs@;
                let c = CommitRef::Sha(used[k].clone());
                refs.push(c);
                assert(crate::validate::commit_views(refs@) =~= crate::validate::commit_views(before).push(
                    crate::validate::commit_view(c),
                ));
                assert(uv.take(k + 1).map_values(|c: Seq<char>| (false, c, None::<Seq<char>>))
                    =~= uv.take(k as int).map_values(|c: Seq<char>| (false, c, None::<Seq<char>>)).push(
                    (false, used@[k as int]@, None::<Seq<char>>),
                ));
                k = k + 1;
            }
            assert(uv.take(used@.len() as int) =~= uv);
            let entry = LogEntry {
                date: Some(owned(today)),
                summary: s,
                commits: refs,
                extra: crate::yaml::FieldMap::new(),
            };
            let ghost before = handoff.log@;
            handoff.log.insert(0, entry);
            assert(handoff.log@.subrange(1, handoff.log@.len() as int) =~= before);
        },
    }
}

/// A labelled list: nothing when empty, else the label and one `- ` line
/// per entry.
pub open spec fn list_lines(label: Seq<char>, items: Seq<Seq<char>>) -> Seq<Seq<char>> {
    if items.len() == 0 {
        Seq::empty()
    } else {
        seq![label] + items.map_values(|i: Seq<char>| "- "@ + i)
    }
}

/// The reconciliation report as printed: the counts (the created count in
/// `Sync` mode only), then the missing, orphaned and closed-upstream lists.
pub open spec fn reconcile_lines(mode: ReconcileMode, r: ReconcileReport) -> Seq<Seq<char>> {
    seq!["Reconciliation — "@ + r.project@, "==========================="@, "Captured in backend:      "@
        + dec(r.captured_count as nat) + " items"@] + (if mode == ReconcileMode::Sync {
        seq!["Created this run:         "@ + dec(r.created_count as nat) + " items"@]
    } else {
        Seq::empty()
    }) + seq![
        "Not captured:             "@ + dec(r.not_captured@.len()) + " items"@,
        "Orphaned backend items:   "@ + dec(r.orphaned@.len()) + " items"@,
        "Closed upstream:          "@ + dec(r.closed_upstream@.len()) + " items"@,
    ] + list_lines("Missing items:"@, sv(r.not_captured@)) + list_lines(
        "Orphaned backend items:"@,
        sv(r.orphaned@),
    ) + list_lines("Closed upstream:"@, sv(r.closed_upstream@))
}

/// Appends a labelled list.
fn push_list(lines: &mut Vec<String>, label: &str, items: &Vec<String>)
    ensures
        sv(final(lines)@) == sv(old(lines)@) + list_lines(label@, sv(items@)),
{
    let ghost before = sv(lines@);
    if items.len() == 0 {
        assert(sv(lines@) =~= before + list_lines(label@, sv(items@)));
        return;
    }
    lines.push(owned(label));
    let mut k: usize = 0;
    while k < items.len()
        invariant
            k <= items@.len(),
            sv(lines@) == before + seq![label@] + sv(items@).take(k as int).map_values(
                |i: Seq<char>| "- "@ + i,
            ),
        decreases items.len() - k,
    {
        let mut l = owned("- ");
        l.append(items[k].as_str());
        let ghost mid = sv(lines@);
        lines.push(l);
        assert(sv(lines@) =~= mid.push(l@));
        assert(sv(items@).take(k + 1).map_values(|i: Seq<char>| "- "@ + i) =~= sv(items@).take(
            k as int,
        ).map_values(|i: Seq<char>| "- "@ + i).push("- "@ + items@[k as int]@));
        k = k + 1;
    }
    assert(sv(items@).take(items@.len() as int) =~= sv(items@));
}

/// A count line: `label` then the number and ` items`.
fn count_line(label: &str, n: usize) -> (r: String)
    ensures
        r@ == label@ + dec(n as nat) + " items"@,
{
    let mut l = owned(label);
    push_decimal(&mut l, n);
    l.append(" items");
    l
}

/// The lines of the reconciliation report.
pub fn reconcile_report_lines(mode: ReconcileMode, report: &ReconcileReport) -> (r: Vec<String>)
    ensures
        sv(r@) == reconcile_lines(mode, *report),
{
    let mut lines: Vec<String> = Vec::new();
    let mut head = owned("Reconciliation — ");
    head.append(report.project.as_str());
    lines.push(head);
    lines.push(owned("==========================="));
    lines.push(count_line("Captured in backend:      ", report.captured_count));
    let sync = match mode {
        ReconcileMode::Sync => true,
        ReconcileMode::Audit => false,
    };
    if sync {
        lines.push(count_line("Created this run:         ", report.created_count));
    }
    lines.push(count_line("Not captured:             ", report.not_captured.len()));
    lines.push(count_line("Orphaned backend items:   ", report.orphaned.len()));
    lines.push(count_line("Closed upstream:          ", report.closed_upstream.len()));
    let ghost counts = sv(lines@);
    push_list(&mut lines, "Missing items:", &report.not_captured);
    push_list(&mut lines, "Orphaned backend items:", &report.orphaned);
    push_list(&mut lines, "Closed upstream:", &report.closed_upstream);
    assert(sv(lines@) =~= reconcile_lines(mode, *report));
    lines
}

/// Joins strings with `, `.
fn join_comma(v: &Vec<String>) -> (r: String)
    ensures
        r@ == crate::text::join(sv(v@), ", "@),
{
    let mut r = String::new();
    let mut k: usize = 0;
    while k < v.len()
        invariant
            k <= v@.len(),
            r@ == crate::text::join(sv(v@).take(k as int), ", "@),
        decreases v.len() - k,
    {
        assert(sv(v@).take(k + 1).drop_last() =~= sv(v@).take(k as int));
        if k > 0 {
            r.append(", ");
        } else {
            assert(sv(v@).take(1) =~= seq![v@[0]@]);
        }
        r.append(v[k].as_str());
        k = k + 1;
    }
    assert(sv(v@).take(v@.len() as int) =~= sv(v@));
    r
}

/// A triage bucket as printed: its label, then its lines, or `- none`.
pub open spec fn bucket_print(label: Seq<char>, items: Seq<Seq<char>>) -> Seq<Seq<char>> {
    seq![label + ":"@] + if items.len() == 0 {
        seq!["  - none"@]
    } else {
        items.map_values(|i: Seq<char>| "  "@ + i)
    }
}

/// The session-state lines of the triage header.
pub open spec fn state_lines(state: Option<HandoffState>) -> Seq<Seq<char>> {
    match state {
        None => Seq::empty(),
        Some(s) => seq![
            "Branch: "@ + or_unknown(ov(s.branch)) + " | Build: "@ + or_unknown(ov(s.build))
                + " | Tests: "@ + or_unknown(ov(s.tests)),
        ] + (match ov(s.notes) {
            Some(n) => if n.len() > 0 {
                seq![n]
            } else {
                Seq::empty()
            },
            None => Seq::empty(),
        }) + if s.touched_files@.len() > 0 {
            seq!["Recently touched: "@ + crate::text::join(sv(s.touched_files@), ", "@)]
        } else {
            Seq::empty()
        },
    }
}

/// What `handon` prints: the triage header with the session state, the
/// review-on-wake list when there is one, and the three triage buckets.
pub open spec fn handon_spec(
    repo_root: Seq<char>,
    state: Option<HandoffState>,
    review: Seq<Seq<char>>,
    p0: Seq<Seq<char>>,
    p1: Seq<Seq<char>>,
    p2: Seq<Seq<char>>,
) -> Seq<Seq<char>> {
    seq!["## Handoff Triage — "@ + repo_root] + state_lines(state) + seq![Seq::<char>::empty()] + (if review.len()
        > 0 {
        seq!["## Review on Wake"@] + review + seq![Seq::<char>::empty()]
    } else {
        Seq::empty()
    }) + bucket_print("P0"@, p0) + bucket_print("P1"@, p1) + bucket_print("P2"@, p2) + if p0.len() == 0
        && p1.len() == 0 && p2.len() == 0 {
        seq!["No open handoff items."@]
    } else {
        Seq::empty()
    }
}

/// Appends lines as they are, or indented by two spaces.
fn push_all(lines: &mut Vec<String>, items: &Vec<String>, indent: bool)
    ensures
        sv(final(lines)@) == sv(old(lines)@) + if indent {
            sv(items@).map_values(|i: Seq<char>| "  "@ + i)
        } else {
            sv(items@)
        },
{
    let ghost before = sv(lines@);
    let ghost f = |i: Seq<char>| if indent { "  "@ + i } else { i };
    let mut k: usize = 0;
    while k < items.len()
        invariant
            k <= items@.len(),
            f == (|i: Seq<char>| if indent { "  "@ + i } else { i }),
            sv(lines@) == before + sv(items@).take(k as int).map_values(f),
        decreases items.len() - k,
    {
        let mut l = if indent {
            owned("  ")
        } else {
            String::new()
        };
        l.append(items[k].as_str());
        let ghost mid = sv(lines@);
        lines.push(l);
        assert(sv(lines@) =~= mid.push(l@));
        assert(sv(items@).take(k + 1).map_values(f) =~= sv(items@).take(k as int).map_values(f).push(
            f(items@[k as int]@),
        ));
        k = k + 1;
    }
    assert(sv(items@).take(items@.len() as int) =~= sv(items@));
    if indent {
        assert(sv(items@).map_values(f) =~= sv(items@).map_values(|i: Seq<char>| "  "@ + i));
    } else {
        assert(sv(items@).map_values(f) =~= sv(items@));
    }
}

/// Appends a triage bucket.
fn push_bucket(lines: &mut Vec<String>, label: &str, items: &Vec<String>)
    ensures
        sv(final(lines)@) == sv(old(lines)@) + bucket_print(label@, sv(items@)),
{
    let ghost before = sv(lines@);
    let mut head = owned(label);
    head.append(":");
    lines.push(head);
    if items.len() == 0 {
        lines.push(owned("  - none"));
    } else {
        push_all(lines, items, true);
    }
    assert(sv(lines@) =~= before + bucket_print(label@, sv(items@)));
}

/// The lines `handon` prints.
pub fn handon_lines(
    repo_root: &str,
    state: Option<&HandoffState>,
    review: &Vec<String>,
    triage: &TriageBuckets,
) -> (r: Vec<String>)
    ensures
        sv(r@) == handon_spec(
            repo_root@,
            match state {
                Some(s) => Some(*s),
                None => None,
            },
            sv(review@),
            sv(triage.p0@),
            sv(triage.p1@),
            sv(triage.p2@),
        ),
{
    let mut lines: Vec<String> = Vec::new();
    let mut head = owned("## Handoff Triage — ");
    head.append(repo_root);
    lines.push(head);
    let ghost h = sv(lines@);
    match state {
        Some(s) => {
            let mut l = owned("Branch: ");
            l.append(or_unknown_exec(&s.branch).as_str());
            l.append(" | Build: ");
            l.append(or_unknown_exec(&s.build).as_str());
            l.append(" | Tests: ");
            l.append(or_unknown_exec(&s.tests).as_str());
            lines.push(l);
            match &s.notes {
                Some(n) => {
                    if n.as_str().unicode_len() > 0 {
                        lines.push(n.clone());
                    }
                },
                None => {},
            }
            if s.touched_files.len() > 0 {
                let mut t = owned("Recently touched: ");
                t.append(join_comma(&s.touched_files).as_str());
                lines.push(t);
            }
            assert(sv(lines@) =~= h + state_lines(Some(*s)));
        },
        None => {
            assert(sv(lines@) =~= h + state_lines(None));
        },
    }
    let ghost h2 = sv(lines@);
    let e0 = String::new();
    assert(e0@ =~= Seq::<char>::empty());
    lines.push(e0);
    let ghost mid = sv(lines@);
    assert(mid =~= h2.push(Seq::<char>::empty()));
    let ghost rv = if review@.len() > 0 {
        seq!["## Review on Wake"@] + sv(review@) + seq![Seq::<char>::empty()]
    } else {
        Seq::<Seq<char>>::empty()
    };
    if review.len() > 0 {
        let w = owned("## Review on Wake");
        lines.push(w);
        let ghost m1 = sv(lines@);
        assert(m1 =~= mid.push("## Review on Wake"@));
        push_all(&mut lines, review, false);
        let e = String::new();
        assert(e@ =~= Seq::<char>::empty());
        let ghost m2 = sv(lines@);
        lines.push(e);
        assert(sv(lines@) =~= m2.push(Seq::<char>::empty()));
        assert(sv(lines@) =~= mid + rv);
    } else {
        assert(sv(lines@) =~= mid + rv);
    }
    let ghost m3 = sv(lines@);
    push_bucket(&mut lines, "P0", &triage.p0);
    push_bucket(&mut lines, "P1", &triage.p1);
    push_bucket(&mut lines, "P2", &triage.p2);
    let ghost m4 = sv(lines@);
    assert(m4 =~= m3 + bucket_print("P0"@, sv(triage.p0@)) + bucket_print("P1"@, sv(triage.p1@)) + bucket_print(
        "P2"@,
        sv(triage.p2@),
    ));
    if triage.p0.len() == 0 && triage.p1.len() == 0 && triage.p2.len() == 0 {
        lines.push(owned("No open handoff items."));
        assert(sv(lines@) =~= m4 + seq!["No open handoff items."@]);
    } else {
        assert(sv(lines@) =~= m4 + Seq::<Seq<char>>::empty());
    }
    let ghost st = match state {
        Some(s) => Some(*s),
        None => None,
    };
    assert(mid =~= seq!["## Handoff Triage — "@ + repo_root@] + state_lines(st) + seq![Seq::<char>::empty()]);
    assert(sv(lines@) =~= handon_spec(
        repo_root@,
        st,
        sv(review@),
        sv(triage.p0@),
        sv(triage.p1@),
        sv(triage.p2@),
    ));
    lines
}

} // verus!

verus! {

/// A new handoff for a project that has none yet: named after the project,
/// with the project's id prefix, dated today, without items or log.
pub fn new_handoff(project: &str, today: &str) -> (r: Handoff)
    ensures
        ov(r.project) == Some(project@),
        ov(r.id) == Some(crate::naming::id_prefix_spec(project@)),
        ov(r.updated) == Some(today@),
        r.items@.len() == 0,
        r.log@.len() == 0,
        r.extra.len_spec() == 0,
{
    let mut h = Handoff::default();
    h.project = Some(owned(project));
    h.id = Some(crate::naming::default_id_prefix(project));
    h.updated = Some(owned(today));
    h
}

/// An audit fails when an item is missing from the backend or was closed
/// there.
pub fn audit_fails(mode: ReconcileMode, report: &ReconcileReport) -> (r: bool)
    ensures
        r == (mode == ReconcileMode::Audit && (report.not_captured@.len() > 0 || report.closed_upstream@.len() > 0)),
{
    match mode {
        ReconcileMode::Audit => report.not_captured.len() > 0 || report.closed_upstream.len() > 0,
        ReconcileMode::Sync => false,
    }
}

} // verus!

verus! {

proof fn lemma_triage_total(x: HandoffItem, y: HandoffItem)
    ensures
        triage_le(x, y) || triage_le(y, x),
{
    lemma_seq_lt_trichotomy(inferred_priority_spec(x), inferred_priority_spec(y));
    lemma_seq_lt_trichotomy(x.id@, y.id@);
}

proof fn lemma_triage_trans(x: HandoffItem, y: HandoffItem, z: HandoffItem)
    requires
        triage_le(x, y),
        triage_le(y, z),
    ensures
        triage_le(x, z),
{
    let (px, py, pz) = (inferred_priority_spec(x), inferred_priority_spec(y), inferred_priority_spec(z));
    if seq_lt(px, py) && seq_lt(py, pz) {
        lemma_seq_lt_trans(px, py, pz);
    }
    if seq_lt(x.id@, y.id@) && seq_lt(y.id@, z.id@) {
        lemma_seq_lt_trans(x.id@, y.id@, z.id@);
    }
}

proof fn lemma_triage_insert_sorted(s: Seq<HandoffItem>, x: HandoffItem)
    requires
        forall|i: int, j: int| 0 <= i < j < s.len() ==> triage_le(#[trigger] s[i], #[trigger] s[j]),
    ensures
        triage_insert(s, x).len() == s.len() + 1,
        forall|i: int, j: int|
            0 <= i < j < triage_insert(s, x).len() ==> triage_le(
                #[trigger] triage_insert(s, x)[i],
                #[trigger] triage_insert(s, x)[j],
            ),
        forall|i: int|
            0 <= i < triage_insert(s, x).len() ==> (#[trigger] triage_insert(s, x)[i] == x || s.contains(
                triage_insert(s, x)[i],
            )),
    decreases s.len(),
{
    if s.len() == 0 {
    } else if triage_le(s.last(), x) {
        let r = s.push(x);
        assert forall|i: int, j: int| 0 <= i < j < r.len() implies triage_le(#[trigger] r[i], #[trigger] r[j]) by {
            if j == s.len() && i < s.len() - 1 {
                lemma_triage_trans(s[i], s.last(), x);
            }
        }
        assert forall|i: int| 0 <= i < r.len() implies (#[trigger] r[i] == x || s.contains(r[i])) by {
            if i < s.len() {
                assert(s[i] == r[i]);
            }
        }
    } else {
        let d = s.drop_last();
        assert forall|i: int, j: int| 0 <= i < j < d.len() implies triage_le(#[trigger] d[i], #[trigger] d[j]) by {
            assert(d[i] == s[i] && d[j] == s[j]);
        }
        lemma_triage_insert_sorted(d, x);
        let t = triage_insert(d, x);
        let r = t.push(s.last());
        lemma_triage_total(s.last(), x);
        assert forall|i: int, j: int| 0 <= i < j < r.len() implies triage_le(#[trigger] r[i], #[trigger] r[j]) by {
            if j == t.len() {
                if t[i] != x {
                    assert(d.contains(t[i]));
                    let w = choose|w: int| 0 <= w < d.len() && d[w] == t[i];
                    assert(s[w] == t[i]);
                }
            }
        }
        assert forall|i: int| 0 <= i < r.len() implies (#[trigger] r[i] == x || s.contains(r[i])) by {
            if i < t.len() {
                if t[i] != x {
                    let w = choose|w: int| 0 <= w < d.len() && d[w] == t[i];
                    assert(s[w] == r[i]);
                }
            } else {
                assert(s[s.len() - 1] == r[i]);
            }
        }
    }
}

proof fn lemma_buckets_partition(s: Seq<HandoffItem>)
    ensures
        bucket_lines(s, 0).len() + bucket_lines(s, 1).len() + bucket_lines(s, 2).len() == s.len(),
    decreases s.len(),
{
    if s.len() > 0 {
        lemma_buckets_partition(s.drop_last());
    }
}

/// Triage lists every active item exactly once: the triage order holds
/// each of them, sorted by inferred priority and id, and the three buckets
/// together have one line per item.
pub proof fn law_triage_sorted_and_complete(items: Seq<HandoffItem>)
    ensures
        triage_sort(active_seq(items)).len() == active_seq(items).len(),
        forall|i: int, j: int|
            0 <= i < j < triage_sort(active_seq(items)).len() ==> triage_le(
                #[trigger] triage_sort(active_seq(items))[i],
                #[trigger] triage_sort(active_seq(items))[j],
            ),
        bucket_lines(triage_sort(active_seq(items)), 0).len() + bucket_lines(
            triage_sort(active_seq(items)),
            1,
        ).len() + bucket_lines(triage_sort(active_seq(items)), 2).len() == active_seq(items).len(),
{
    lemma_triage_sort_sorted(active_seq(items));
    lemma_buckets_partition(triage_sort(active_seq(items)));
}

proof fn lemma_triage_sort_sorted(s: Seq<HandoffItem>)
    ensures
        triage_sort(s).len() == s.len(),
        forall|i: int, j: int|
            0 <= i < j < triage_sort(s).len() ==> triage_le(#[trigger] triage_sort(s)[i], #[trigger] triage_sort(s)[j]),
    decreases s.len(),
{
    if s.len() > 0 {
        lemma_triage_sort_sorted(s.drop_last());
        lemma_triage_insert_sorted(triage_sort(s.drop_last()), s.last());
    }
}

/// Applying the same database rows twice gives what applying them once
/// gives: a row sets a field to its own value, whatever the field held.
pub proof fn law_row_overrides_idempotent(rows: Seq<HandoffRow>, id: Seq<char>, init: Option<Seq<char>>, f: RowField)
    ensures
        override_field(rows, id, override_field(rows, id, init, f), f) == override_field(rows, id, init, f),
    decreases rows.len(),
{
    if rows.len() > 0 {
        let r = rows.last();
        if !(r.id@ == id && row_value(r, f).len() > 0) {
            lemma_override_prefix(rows.drop_last(), id, init, f);
            law_row_overrides_idempotent(rows.drop_last(), id, init, f);
            lemma_override_prefix(rows.drop_last(), id, override_field(rows, id, init, f), f);
        }
    }
}

proof fn lemma_override_prefix(rows: Seq<HandoffRow>, id: Seq<char>, init: Option<Seq<char>>, f: RowField)
    ensures
        override_field(rows, id, init, f) is Some || override_field(rows, id, init, f) == init,
        override_field(rows, id, init, f) != init ==> forall|other: Option<Seq<char>>|
            #[trigger] override_field(rows, id, other, f) == override_field(rows, id, init, f),
    decreases rows.len(),
{
    if rows.len() > 0 {
        lemma_override_prefix(rows.drop_last(), id, init, f);
        let r = rows.last();
        if !(r.id@ == id && row_value(r, f).len() > 0) {
            assert forall|other: Option<Seq<char>>| override_field(rows, id, init, f) != init implies #[trigger] override_field(
                rows,
                id,
                other,
                f,
            ) == override_field(rows, id, init, f) by {
                assert(override_field(rows.drop_last(), id, other, f) == override_field(rows.drop_last(), id, init, f));
            }
        }
    }
}

} // verus!

verus! {

/// Applying the same rows to a handoff twice leaves it as applying them
/// once did: for items `a` (before), `b` (after one application) and `c`
/// (after another), `c` has `b`'s priority, status and completion.
pub proof fn law_apply_rows_twice(
    a: Seq<HandoffItem>,
    b: Seq<HandoffItem>,
    c: Seq<HandoffItem>,
    rows: Seq<HandoffRow>,
)
    requires
        b.len() == a.len(),
        c.len() == b.len(),
        forall|j: int| 0 <= j < a.len() ==> row_applied(a, j, rows, #[trigger] b[j]),
        forall|j: int| 0 <= j < b.len() ==> row_applied(b, j, rows, #[trigger] c[j]),
    ensures
        forall|j: int|
            0 <= j < c.len() ==> ov((#[trigger] c[j]).priority) == ov(b[j].priority) && ov(c[j].status) == ov(
                b[j].status,
            ) && ov(c[j].completed) == ov(b[j].completed),
{
    assert forall|j: int| 0 <= j < c.len() implies ov((#[trigger] c[j]).priority) == ov(b[j].priority) && ov(
        c[j].status,
    ) == ov(b[j].status) && ov(c[j].completed) == ov(b[j].completed) by {
        assert(row_applied(a, j, rows, b[j]));
        assert(row_applied(b, j, rows, c[j]));
        assert(first_with_id(a, j) == first_with_id(b, j)) by {
            assert forall|k: int| 0 <= k < j implies (#[trigger] a[k]).id@ == b[k].id@ by {
                assert(row_applied(a, k, rows, b[k]));
            }
        }
        if first_with_id(a, j) {
            let id = a[j].id@;
            law_row_overrides_idempotent(rows, id, ov(a[j].priority), RowField::Priority);
            law_row_overrides_idempotent(rows, id, ov(a[j].status), RowField::Status);
            law_row_overrides_idempotent(rows, id, ov(a[j].completed), RowField::Completed);
        }
    }
}

} // verus!
