//! Markdown rendering of a handoff: the `HANDOFF.md` summary and the
//! compact `HANDOVER.md` document.

use vstd::prelude::*;

use crate::items::{active_seq, ov};
use crate::model::{commit_sha, CommitRef, Handoff, HandoffItem, HandoffState, LogEntry};
use crate::text::{
    chars_of, join, lemma_seq_lt_trans, lemma_seq_lt_trichotomy, seq_le, seq_lt, seq_lt_exec, str_eq,
};

verus! {

/// The sort rank of a priority: P0, P1, P2, then anything else.
pub open spec fn priority_rank_spec(p: Option<Seq<char>>) -> u8 {
    if p == Some("P0"@) {
        0
    } else if p == Some("P1"@) {
        1
    } else if p == Some("P2"@) {
        2
    } else {
        9
    }
}

/// The sort rank of a status: open, blocked, then anything else.
pub open spec fn status_rank_spec(s: Option<Seq<char>>) -> u8 {
    if s == Some("open"@) {
        0
    } else if s == Some("blocked"@) {
        1
    } else {
        9
    }
}

/// The rank of a priority.
pub fn priority_rank(priority: Option<&str>) -> (r: u8)
    ensures
        r == priority_rank_spec(match priority {
            Some(p) => Some(p@),
            None => None,
        }),
{
    match priority {
        Some(p) => if str_eq(p, "P0") {
            0
        } else if str_eq(p, "P1") {
            1
        } else if str_eq(p, "P2") {
            2
        } else {
            9
        },
        None => 9,
    }
}

/// The rank of a status.
pub fn status_rank(status: Option<&str>) -> (r: u8)
    ensures
        r == status_rank_spec(match status {
            Some(s) => Some(s@),
            None => None,
        }),
{
    match status {
        Some(s) => if str_eq(s, "open") {
            0
        } else if str_eq(s, "blocked") {
            1
        } else {
            9
        },
        None => 9,
    }
}

/// Does `x` sort no later than `y`: by priority rank, then status rank, then id?
pub open spec fn key_le(x: HandoffItem, y: HandoffItem) -> bool {
    let px = priority_rank_spec(ov(x.priority));
    let py = priority_rank_spec(ov(y.priority));
    let sx = status_rank_spec(ov(x.status));
    let sy = status_rank_spec(ov(y.status));
    px < py || (px == py && (sx < sy || (sx == sy && seq_le(x.id@, y.id@))))
}

/// Stable insertion of `x` behind every element that sorts no later than it.
pub open spec fn insert_sorted(s: Seq<HandoffItem>, x: HandoffItem) -> Seq<HandoffItem>
    decreases s.len(),
{
    if s.len() == 0 {
        seq![x]
    } else if key_le(s.last(), x) {
        s.push(x)
    } else {
        insert_sorted(s.drop_last(), x).push(s.last())
    }
}

/// A stable sort by `key_le`.
pub open spec fn sort_items(s: Seq<HandoffItem>) -> Seq<HandoffItem>
    decreases s.len(),
{
    if s.len() == 0 {
        Seq::<HandoffItem>::empty()
    } else {
        insert_sorted(sort_items(s.drop_last()), s.last())
    }
}

/// The active items in rendering order.
pub open spec fn sorted_active_spec(h: Handoff) -> Seq<HandoffItem> {
    sort_items(active_seq(h.items@))
}

pub proof fn lemma_key_total(x: HandoffItem, y: HandoffItem)
    ensures
        key_le(x, y) || key_le(y, x),
{
    lemma_seq_lt_trichotomy(x.id@, y.id@);
}

pub proof fn lemma_key_trans(x: HandoffItem, y: HandoffItem, z: HandoffItem)
    requires
        key_le(x, y),
        key_le(y, z),
    ensures
        key_le(x, z),
{
    if seq_lt(x.id@, y.id@) && seq_lt(y.id@, z.id@) {
        lemma_seq_lt_trans(x.id@, y.id@, z.id@);
    }
}

proof fn lemma_insert_at(s: Seq<HandoffItem>, x: HandoffItem, p: int)
    requires
        0 <= p <= s.len(),
        p == 0 || key_le(s[p - 1], x),
        forall|j: int| p <= j < s.len() ==> !key_le(#[trigger] s[j], x),
    ensures
        insert_sorted(s, x) == s.subrange(0, p).push(x) + s.subrange(p, s.len() as int),
    decreases s.len(),
{
    if s.len() == 0 {
        assert(s.subrange(0, p).push(x) + s.subrange(p, s.len() as int) =~= seq![x]);
    } else if p == s.len() {
        assert(s.subrange(0, p).push(x) + s.subrange(p, s.len() as int) =~= s.push(x));
    } else {
        assert(!key_le(s[s.len() - 1], x));
        let d = s.drop_last();
        assert forall|j: int| p <= j < d.len() implies !key_le(#[trigger] d[j], x) by {
            assert(d[j] == s[j]);
        }
        if p > 0 {
            assert(d[p - 1] == s[p - 1]);
        }
        lemma_insert_at(d, x, p);
        assert(d.subrange(0, p).push(x) + d.subrange(p, d.len() as int) + seq![s.last()] =~= s.subrange(
            0,
            p,
        ).push(x) + s.subrange(p, s.len() as int));
    }
}

/// The active items sorted by priority rank, status rank and id (stable).
pub fn sorted_active_items(handoff: &Handoff) -> (r: Vec<&HandoffItem>)
    ensures
        r@.map_values(|x: &HandoffItem| *x) == sorted_active_spec(*handoff),
{
    let active = handoff.active_items();
    let ghost a = active_seq(handoff.items@);
    let mut out: Vec<&HandoffItem> = Vec::new();
    let mut i: usize = 0;
    while i < active.len()
        invariant
            i <= active@.len(),
            active@.map_values(|x: &HandoffItem| *x) == a,
            out@.map_values(|x: &HandoffItem| *x) == sort_items(a.subrange(0, i as int)),
        decreases active.len() - i,
    {
        let x: &HandoffItem = active[i];
        let ghost s = out@.map_values(|y: &HandoffItem| *y);
        assert(a.subrange(0, i + 1).drop_last() =~= a.subrange(0, i as int));
        assert(a.subrange(0, i + 1).last() == *x);
        let xp = priority_rank(match &x.priority {
            Some(p) => Some(p.as_str()),
            None => None,
        });
        let xs = status_rank(match &x.status {
            Some(st) => Some(st.as_str()),
            None => None,
        });
        let xid = chars_of(x.id.as_str());
        let mut p: usize = out.len();
        while p > 0 && !item_key_le(out[p - 1], xp, xs, &xid)
            invariant
                p <= out@.len(),
                s == out@.map_values(|y: &HandoffItem| *y),
                xp == priority_rank_spec(ov(x.priority)),
                xs == status_rank_spec(ov(x.status)),
                xid@ == x.id@,
                forall|j: int| p <= j < s.len() ==> !key_le(#[trigger] s[j], *x),
            decreases p,
        {
            p = p - 1;
        }
        proof {
            lemma_insert_at(s, *x, p as int);
        }
        out.insert(p, x);
        assert(out@.map_values(|y: &HandoffItem| *y) =~= s.subrange(0, p as int).push(*x) + s.subrange(
            p as int,
            s.len() as int,
        ));
        i = i + 1;
    }
    assert(a.subrange(0, active@.len() as int) =~= a);
    out
}

/// `key_le(item, x)` for an `x` given by its ranks and id.
fn item_key_le(item: &HandoffItem, xp: u8, xs: u8, xid: &Vec<char>) -> (r: bool)
    ensures
        r == ({
            let px = priority_rank_spec(ov(item.priority));
            let sx = status_rank_spec(ov(item.status));
            px < xp || (px == xp && (sx < xs || (sx == xs && seq_le(item.id@, xid@))))
        }),
{
    let ip = priority_rank(match &item.priority {
        Some(p) => Some(p.as_str()),
        None => None,
    });
    let is = status_rank(match &item.status {
        Some(st) => Some(st.as_str()),
        None => None,
    });
    if ip != xp {
        return ip < xp;
    }
    if is != xs {
        return is < xs;
    }
    let iid = chars_of(item.id.as_str());
    seq_lt_exec(&iid, xid) || crate::text::vec_eq(&iid, xid)
}

/// The rendering order is sorted: each item sorts no later than the next.
pub proof fn law_render_order_sorted(items: Seq<HandoffItem>)
    ensures
        forall|i: int, j: int|
            0 <= i < j < sort_items(items).len() ==> key_le(
                #[trigger] sort_items(items)[i],
                #[trigger] sort_items(items)[j],
            ),
        sort_items(items).len() == items.len(),
    decreases items.len(),
{
    if items.len() > 0 {
        law_render_order_sorted(items.drop_last());
        lemma_insert_keeps_sorted(sort_items(items.drop_last()), items.last());
    }
}

proof fn lemma_insert_keeps_sorted(s: Seq<HandoffItem>, x: HandoffItem)
    requires
        forall|i: int, j: int| 0 <= i < j < s.len() ==> key_le(#[trigger] s[i], #[trigger] s[j]),
    ensures
        forall|i: int, j: int|
            0 <= i < j < insert_sorted(s, x).len() ==> key_le(
                #[trigger] insert_sorted(s, x)[i],
                #[trigger] insert_sorted(s, x)[j],
            ),
        insert_sorted(s, x).len() == s.len() + 1,
    decreases s.len(),
{
    if s.len() == 0 {
    } else if key_le(s.last(), x) {
        let r = s.push(x);
        assert forall|i: int, j: int| 0 <= i < j < r.len() implies key_le(#[trigger] r[i], #[trigger] r[j]) by {
            if j == s.len() {
                if i < s.len() - 1 {
                    lemma_key_trans(s[i], s.last(), x);
                }
            }
        }
    } else {
        let d = s.drop_last();
        assert forall|i: int, j: int| 0 <= i < j < d.len() implies key_le(#[trigger] d[i], #[trigger] d[j]) by {
            assert(d[i] == s[i] && d[j] == s[j]);
        }
        lemma_insert_keeps_sorted(d, x);
        let t = insert_sorted(d, x);
        let r = t.push(s.last());
        lemma_key_total(s.last(), x);
        assert forall|i: int, j: int| 0 <= i < j < r.len() implies key_le(#[trigger] r[i], #[trigger] r[j]) by {
            if j == t.len() {
                // r[i] is either x or an element of d; both sort no later than s.last()
                lemma_insert_members(d, x, i);
                if r[i] != x {
                    let k = choose|k: int| 0 <= k < d.len() && d[k] == r[i];
                    assert(s[k] == d[k]);
                    assert(key_le(s[k], s[s.len() - 1]));
                }
            }
        }
    }
}

proof fn lemma_insert_members(s: Seq<HandoffItem>, x: HandoffItem, i: int)
    requires
        0 <= i < insert_sorted(s, x).len(),
    ensures
        insert_sorted(s, x)[i] == x || exists|k: int| 0 <= k < s.len() && s[k] == insert_sorted(s, x)[i],
    decreases s.len(),
{
    if s.len() == 0 {
    } else if key_le(s.last(), x) {
        if i < s.len() {
            assert(s[i] == insert_sorted(s, x)[i]);
        }
    } else {
        let d = s.drop_last();
        let t = insert_sorted(d, x);
        if i < t.len() {
            lemma_insert_members(d, x, i);
            if t[i] != x {
                let k = choose|k: int| 0 <= k < d.len() && d[k] == t[i];
                assert(s[k] == d[k]);
            }
        } else {
            assert(s[s.len() - 1] == insert_sorted(s, x)[i]);
        }
    }
}

/// A value or `-`.
pub open spec fn or_dash(o: Option<Seq<char>>) -> Seq<char> {
    match o {
        Some(v) => v,
        None => "-"@,
    }
}

/// A value or `unknown`.
pub open spec fn or_unknown(o: Option<Seq<char>>) -> Seq<char> {
    match o {
        Some(v) => v,
        None => "unknown"@,
    }
}

/// The table row of an item.
pub open spec fn item_row(item: HandoffItem) -> Seq<char> {
    "| "@ + item.id@ + " | "@ + or_dash(ov(item.priority)) + " | "@ + or_dash(ov(item.status)) + " | "@
        + item.title@ + " |\n"@
}

/// The table rows of some items.
pub open spec fn item_rows(items: Seq<HandoffItem>) -> Seq<char>
    decreases items.len(),
{
    if items.len() == 0 {
        Seq::<char>::empty()
    } else {
        item_rows(items.drop_last()) + item_row(items.last())
    }
}

/// The SHAs of a log entry's commits.
pub open spec fn commit_shas(commits: Seq<CommitRef>) -> Seq<Seq<char>> {
    commits.map_values(|c: CommitRef| commit_sha(c))
}

/// The log line of an entry: date, summary, and the commits in brackets when there are any.
pub open spec fn log_line(e: LogEntry) -> Seq<char> {
    let head = "- "@ + or_unknown(ov(e.date)) + ": "@ + e.summary@;
    if e.commits@.len() == 0 {
        head + "\n"@
    } else {
        head + " ["@ + join(commit_shas(e.commits@), ", "@) + "]\n"@
    }
}

/// The log lines of some entries.
pub open spec fn log_lines(entries: Seq<LogEntry>) -> Seq<char>
    decreases entries.len(),
{
    if entries.len() == 0 {
        Seq::<char>::empty()
    } else {
        log_lines(entries.drop_last()) + log_line(entries.last())
    }
}

/// The first five log entries (the newest, as the log is kept newest first).
pub open spec fn recent_log(log: Seq<LogEntry>) -> Seq<LogEntry> {
    if log.len() <= 5 {
        log
    } else {
        log.subrange(0, 5)
    }
}

/// The state line fields of an optional state.
pub open spec fn state_field(state: Option<HandoffState>, which: int) -> Option<Seq<char>> {
    match state {
        Some(s) => if which == 0 {
            ov(s.branch)
        } else if which == 1 {
            ov(s.build)
        } else if which == 2 {
            ov(s.tests)
        } else {
            ov(s.notes)
        },
        None => None,
    }
}

/// The notes line, when the state has non-empty notes.
pub open spec fn notes_line(state: Option<HandoffState>) -> Seq<char> {
    match state_field(state, 3) {
        Some(n) => if n.len() > 0 {
            n + "\n"@
        } else {
            Seq::<char>::empty()
        },
        None => Seq::<char>::empty(),
    }
}

/// The items table and log sections shared by both documents.
pub open spec fn body_spec(h: Handoff, table_header: Seq<char>) -> Seq<char> {
    "\n## Items\n\n"@ + table_header + "|---|---|---|---|\n"@ + item_rows(sorted_active_spec(h))
        + "\n## Log\n\n"@ + log_lines(recent_log(h.log@))
}

/// `HANDOFF.md`: title line, bold state line, notes, items table, recent log.
pub open spec fn render_markdown_spec(h: Handoff, state: Option<HandoffState>) -> Seq<char> {
    "# Handoff — "@ + or_unknown(ov(h.project)) + " ("@ + or_unknown(ov(h.updated)) + ")\n\n"@
        + "**Branch:** "@ + or_unknown(state_field(state, 0)) + " | **Build:** "@ + or_unknown(
        state_field(state, 1),
    ) + " | **Tests:** "@ + or_unknown(state_field(state, 2)) + "\n"@ + notes_line(state) + body_spec(
        h,
        "| ID | P | Status | Title |\n"@,
    )
}

/// `HANDOVER.md`: state section, notes, items table, recent log.
pub open spec fn render_handover_spec(h: Handoff, state: Option<HandoffState>) -> Seq<char> {
    "## State\n\n"@ + "Branch: "@ + or_unknown(state_field(state, 0)) + " | Build: "@ + or_unknown(
        state_field(state, 1),
    ) + " | Tests: "@ + or_unknown(state_field(state, 2)) + "\n"@ + notes_line(state) + body_spec(
        h,
        "| ID | Priority | Status | Title |\n"@,
    )
}

/// The state as a plain optional value.
pub open spec fn opt_state(state: Option<&HandoffState>) -> Option<HandoffState> {
    match state {
        Some(s) => Some(*s),
        None => None,
    }
}

fn append_opt_or(out: &mut String, o: &Option<String>, fallback: &str)
    ensures
        final(out)@ == old(out)@ + match ov(*o) {
            Some(v) => v,
            None => fallback@,
        },
{
    match o {
        Some(v) => out.append(v.as_str()),
        None => out.append(fallback),
    }
}

fn state_opt(state: Option<&HandoffState>, which: u8) -> (r: Option<String>)
    requires
        which < 4,
    ensures
        ov(r) == state_field(opt_state(state), which as int),
{
    match state {
        Some(s) => if which == 0 {
            s.branch.clone()
        } else if which == 1 {
            s.build.clone()
        } else if which == 2 {
            s.tests.clone()
        } else {
            s.notes.clone()
        },
        None => None,
    }
}

fn append_notes(out: &mut String, state: Option<&HandoffState>)
    ensures
        final(out)@ == old(out)@ + notes_line(opt_state(state)),
{
    let notes = state_opt(state, 3);
    if let Some(n) = notes {
        if n.as_str().unicode_len() > 0 {
            out.append(n.as_str());
            out.append("\n");
        }
    }
}

fn append_body(out: &mut String, handoff: &Handoff, table_header: &str)
    ensures
        final(out)@ == old(out)@ + body_spec(*handoff, table_header@),
{
    out.append("\n## Items\n\n");
    out.append(table_header);
    out.append("|---|---|---|---|\n");
    let sorted = sorted_active_items(handoff);
    let ghost ss = sorted_active_spec(*handoff);
    let ghost start = out@;
    let mut i: usize = 0;
    while i < sorted.len()
        invariant
            i <= sorted@.len(),
            sorted@.map_values(|x: &HandoffItem| *x) == ss,
            out@ == start + item_rows(ss.subrange(0, i as int)),
        decreases sorted.len() - i,
    {
        let item: &HandoffItem = sorted[i];
        assert(ss.subrange(0, i + 1).drop_last() =~= ss.subrange(0, i as int));
        assert(ss.subrange(0, i + 1).last() == *item);
        let ghost before = out@;
        append_item_row(out, item);
        assert(before + item_rows(ss.subrange(0, i + 1)) =~= before + item_rows(ss.subrange(0, i as int)) + item_row(*item));
        i = i + 1;
    }
    assert(ss.subrange(0, sorted@.len() as int) =~= ss);
    out.append("\n## Log\n\n");
    let ghost start2 = out@;
    let ghost recent = recent_log(handoff.log@);
    let n = if handoff.log.len() < 5 {
        handoff.log.len()
    } else {
        5
    };
    assert(recent =~= handoff.log@.subrange(0, n as int));
    let mut j: usize = 0;
    while j < n
        invariant
            j <= n <= handoff.log@.len(),
            recent == handoff.log@.subrange(0, n as int),
            out@ == start2 + log_lines(recent.subrange(0, j as int)),
        decreases n - j,
    {
        let entry = &handoff.log[j];
        assert(recent.subrange(0, j + 1).drop_last() =~= recent.subrange(0, j as int));
        assert(recent.subrange(0, j + 1).last() == *entry);
        let ghost before = out@;
        out.append("- ");
        append_opt_or(out, &entry.date, "unknown");
        out.append(": ");
        out.append(entry.summary.as_str());
        if entry.commits.len() == 0 {
            out.append("\n");
        } else {
            out.append(" [");
            let mut k: usize = 0;
            let ghost shas = commit_shas(entry.commits@);
            let ghost mid = out@;
            while k < entry.commits.len()
                invariant
                    k <= entry.commits@.len(),
                    shas == commit_shas(entry.commits@),
                    out@ == mid + join(shas.subrange(0, k as int), ", "@),
                decreases entry.commits.len() - k,
            {
                assert(shas.subrange(0, k + 1).drop_last() =~= shas.subrange(0, k as int));
                if k > 0 {
                    out.append(", ");
                } else {
                    assert(shas.subrange(0, k as int) =~= Seq::<Seq<char>>::empty());
                }
                out.append(entry.commits[k].sha());
                proof {
                    if k == 0 {
                        assert(out@ =~= mid + join(shas.subrange(0, 1), ", "@));
                    } else {
                        assert(out@ =~= mid + join(shas.subrange(0, k + 1), ", "@));
                    }
                }
                k = k + 1;
            }
            assert(shas.subrange(0, entry.commits@.len() as int) =~= shas);
            out.append("]\n");
        }
        assert(out@ =~= before + log_line(*entry));
        j = j + 1;
    }
    assert(recent.subrange(0, n as int) =~= recent);
}

fn append_item_row(out: &mut String, item: &HandoffItem)
    ensures
        final(out)@ == old(out)@ + item_row(*item),
{
    let ghost before = out@;
    out.append("| ");
    out.append(item.id.as_str());
    out.append(" | ");
    append_opt_or(out, &item.priority, "-");
    out.append(" | ");
    append_opt_or(out, &item.status, "-");
    out.append(" | ");
    out.append(item.title.as_str());
    out.append(" |\n");
    assert(out@ =~= before + item_row(*item));
}

/// Renders `HANDOFF.md` from a handoff and its optional session state.
pub fn render_markdown(handoff: &Handoff, state: Option<&HandoffState>) -> (r: String)
    ensures
        r@ == render_markdown_spec(*handoff, opt_state(state)),
{
    let mut out = String::new();
    out.append("# Handoff — ");
    append_opt_or(&mut out, &handoff.project, "unknown");
    out.append(" (");
    append_opt_or(&mut out, &handoff.updated, "unknown");
    out.append(")\n\n");
    out.append("**Branch:** ");
    append_opt_or(&mut out, &state_opt(state, 0), "unknown");
    out.append(" | **Build:** ");
    append_opt_or(&mut out, &state_opt(state, 1), "unknown");
    out.append(" | **Tests:** ");
    append_opt_or(&mut out, &state_opt(state, 2), "unknown");
    out.append("\n");
    append_notes(&mut out, state);
    append_body(&mut out, handoff, "| ID | P | Status | Title |\n");
    assert(out@ =~= render_markdown_spec(*handoff, opt_state(state)));
    out
}

/// Renders `HANDOVER.md` from a handoff and its optional session state.
pub fn render_handover_markdown(handoff: &Handoff, state: Option<&HandoffState>) -> (r: String)
    ensures
        r@ == render_handover_spec(*handoff, opt_state(state)),
{
    let mut out = String::new();
    out.append("## State\n\n");
    out.append("Branch: ");
    append_opt_or(&mut out, &state_opt(state, 0), "unknown");
    out.append(" | Build: ");
    append_opt_or(&mut out, &state_opt(state, 1), "unknown");
    out.append(" | Tests: ");
    append_opt_or(&mut out, &state_opt(state, 2), "unknown");
    out.append("\n");
    append_notes(&mut out, state);
    append_body(&mut out, handoff, "| ID | Priority | Status | Title |\n");
    assert(out@ =~= render_handover_spec(*handoff, opt_state(state)));
    out
}

/// When the session state has non-empty notes, `HANDOFF.md` holds them on
/// their own line right after the Branch/Build/Tests line and right before
/// the Items section; `HANDOVER.md` likewise after its state line.
pub proof fn law_notes_follow_state_line(h: Handoff, st: HandoffState)
    requires
        ov(st.notes) matches Some(n) && n.len() > 0,
    ensures
        exists|pre: Seq<char>, post: Seq<char>|
            #[trigger] render_markdown_spec(h, Some(st)) == pre + (" | **Tests:** "@ + or_unknown(ov(st.tests))
                + "\n"@) + ov(st.notes)->0 + "\n"@ + ("\n## Items\n"@ + post),
        exists|pre: Seq<char>, post: Seq<char>|
            #[trigger] render_handover_spec(h, Some(st)) == pre + (" | Tests: "@ + or_unknown(ov(st.tests))
                + "\n"@) + ov(st.notes)->0 + "\n"@ + ("\n## Items\n"@ + post),
{
    reveal_strlit("\n## Items\n\n");
    reveal_strlit("\n## Items\n");
    reveal_strlit("\n");
    let n = ov(st.notes)->0;
    let tail = "| ID | P | Status | Title |\n"@ + "|---|---|---|---|\n"@ + item_rows(sorted_active_spec(h))
        + "\n## Log\n\n"@ + log_lines(recent_log(h.log@));
    let post1 = "\n"@ + tail;
    assert("\n## Items\n\n"@ =~= "\n## Items\n"@ + "\n"@);
    let pre1 = "# Handoff — "@ + or_unknown(ov(h.project)) + " ("@ + or_unknown(ov(h.updated)) + ")\n\n"@
        + "**Branch:** "@ + or_unknown(state_field(Some(st), 0)) + " | **Build:** "@ + or_unknown(
        state_field(Some(st), 1),
    );
    assert(render_markdown_spec(h, Some(st)) =~= pre1 + (" | **Tests:** "@ + or_unknown(ov(st.tests)) + "\n"@)
        + n + "\n"@ + ("\n## Items\n"@ + post1));
    let tail2 = "| ID | Priority | Status | Title |\n"@ + "|---|---|---|---|\n"@ + item_rows(
        sorted_active_spec(h),
    ) + "\n## Log\n\n"@ + log_lines(recent_log(h.log@));
    let post2 = "\n"@ + tail2;
    let pre2 = "## State\n\n"@ + "Branch: "@ + or_unknown(state_field(Some(st), 0)) + " | Build: "@ + or_unknown(
        state_field(Some(st), 1),
    );
    assert(render_handover_spec(h, Some(st)) =~= pre2 + (" | Tests: "@ + or_unknown(ov(st.tests)) + "\n"@) + n
        + "\n"@ + ("\n## Items\n"@ + post2));
}

} // verus!
