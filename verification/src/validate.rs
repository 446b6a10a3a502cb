//! Structural checks of a handoff, and the repair that moves log records
//! misplaced among the items back into the log.

use vstd::prelude::*;

use crate::items::ov;
use crate::model::{CommitRef, Handoff, HandoffItem, LogEntry, ValidationWarning};
use crate::text::{
    lemma_seq_lt_trans, lemma_seq_lt_trichotomy, owned, push_decimal, dec, seq_le, seq_lt, str_eq,
    str_lt,
};
use crate::yaml::{
    as_seq_spec, as_str_spec, is_str_key, mapping_get, FieldMap, YamlValue,
};

verus! {

/// An item without id that carries a `date`, or a `summary` and `commits`,
/// is a log record written among the items.
pub open spec fn looks_like_log_entry_spec(item: HandoffItem) -> bool {
    item.id@.len() == 0 && (item.extra_fields.get_spec("date"@) is Some || (item.extra_fields.get_spec(
        "summary"@,
    ) is Some && item.extra_fields.get_spec("commits"@) is Some))
}

/// The string under a field, when the field holds one.
pub open spec fn field_str(fields: FieldMap, key: Seq<char>) -> Option<Seq<char>> {
    match fields.get_spec(key) {
        Some(v) => as_str_spec(v),
        None => None,
    }
}

/// A warning with its strings and index lists as plain values.
pub enum WarningView {
    ItemMissingId(usize, Seq<char>),
    LogEntryInItems(usize, Seq<char>),
    LogEntryMissingSummary(usize),
    DuplicateItemId(Seq<char>, Seq<usize>),
}

pub open spec fn warning_view(w: ValidationWarning) -> WarningView {
    match w {
        ValidationWarning::ItemMissingId { index, title } => WarningView::ItemMissingId(index, title@),
        ValidationWarning::LogEntryInItems { index, date } => WarningView::LogEntryInItems(index, date@),
        ValidationWarning::LogEntryMissingSummary { index } => WarningView::LogEntryMissingSummary(index),
        ValidationWarning::DuplicateItemId { id, indices } => WarningView::DuplicateItemId(id@, indices@),
    }
}

/// The warnings about items without an id, in item order.
pub open spec fn id_warnings(items: Seq<HandoffItem>) -> Seq<WarningView>
    decreases items.len(),
{
    if items.len() == 0 {
        Seq::<WarningView>::empty()
    } else {
        let rest = id_warnings(items.drop_last());
        let i = (items.len() - 1) as usize;
        let item = items.last();
        if item.id@.len() > 0 {
            rest
        } else if looks_like_log_entry_spec(item) {
            rest.push(
                WarningView::LogEntryInItems(
                    i,
                    match field_str(item.extra_fields, "date"@) {
                        Some(d) => d,
                        None => Seq::<char>::empty(),
                    },
                ),
            )
        } else {
            rest.push(WarningView::ItemMissingId(i, item.title@))
        }
    }
}

/// The positions at which items carry the id `id`, ascending.
pub open spec fn positions(items: Seq<HandoffItem>, id: Seq<char>) -> Seq<usize>
    decreases items.len(),
{
    if items.len() == 0 {
        Seq::<usize>::empty()
    } else if items.last().id@ == id {
        positions(items.drop_last(), id).push((items.len() - 1) as usize)
    } else {
        positions(items.drop_last(), id)
    }
}

/// The duplicate-id groups: one `(id, positions)` pair per non-empty id
/// that occurs more than once, ordered by id.
pub open spec fn dup_groups_ok(items: Seq<HandoffItem>, g: Seq<(Seq<char>, Seq<usize>)>) -> bool {
    &&& forall|k: int|
        0 <= k < g.len() ==> (#[trigger] g[k]).0.len() > 0 && g[k].1 == positions(items, g[k].0)
            && g[k].1.len() > 1
    &&& forall|k: int, l: int| 0 <= k < l < g.len() ==> seq_lt((#[trigger] g[k]).0, (#[trigger] g[l]).0)
    &&& forall|i: int|
        0 <= i < items.len() && (#[trigger] items[i]).id@.len() > 0 && positions(items, items[i].id@).len()
            > 1 ==> exists|k: int| 0 <= k < g.len() && (#[trigger] g[k]).0 == items[i].id@
}

/// The warnings of duplicate-id groups.
pub open spec fn dup_warnings(g: Seq<(Seq<char>, Seq<usize>)>) -> Seq<WarningView> {
    g.map_values(|p: (Seq<char>, Seq<usize>)| WarningView::DuplicateItemId(p.0, p.1))
}

/// The plain view of exec duplicate groups.
pub open spec fn gv(g: Seq<(String, Vec<usize>)>) -> Seq<(Seq<char>, Seq<usize>)> {
    g.map_values(|p: (String, Vec<usize>)| (p.0@, p.1@))
}

/// The views of a list of warnings.
pub open spec fn wv(w: Seq<ValidationWarning>) -> Seq<WarningView> {
    w.map_values(|x: ValidationWarning| warning_view(x))
}

/// Everything `validate` reports, given the duplicate groups `g`.
pub open spec fn validate_spec(h: Handoff, g: Seq<(Seq<char>, Seq<usize>)>) -> Seq<WarningView> {
    id_warnings(h.items@) + dup_warnings(g) + summary_warnings(h.log@)
}

/// The warnings about log entries without a summary, in log order.
pub open spec fn summary_warnings(log: Seq<LogEntry>) -> Seq<WarningView>
    decreases log.len(),
{
    if log.len() == 0 {
        Seq::<WarningView>::empty()
    } else if log.last().summary@.len() == 0 {
        summary_warnings(log.drop_last()).push(
            WarningView::LogEntryMissingSummary((log.len() - 1) as usize),
        )
    } else {
        summary_warnings(log.drop_last())
    }
}

/// The string under field `key`, when the field holds one.
pub fn field_string(fields: &FieldMap, key: &str) -> (r: Option<String>)
    ensures
        ov(r) == field_str(*fields, key@),
{
    match fields.get(key) {
        Some(v) => match v.as_str() {
            Some(s) => Some(owned(s)),
            None => None,
        },
        None => None,
    }
}

/// The positions of the items with id `id`, ascending.
fn positions_exec(items: &Vec<HandoffItem>, id: &str) -> (r: Vec<usize>)
    ensures
        r@ == positions(items@, id@),
{
    let mut r: Vec<usize> = Vec::new();
    let mut k: usize = 0;
    while k < items.len()
        invariant
            k <= items@.len(),
            r@ == positions(items@.take(k as int), id@),
        decreases items.len() - k,
    {
        assert(items@.take(k + 1).drop_last() =~= items@.take(k as int));
        assert(items@.take(k + 1).last() == items@[k as int]);
        if str_eq(items[k].id.as_str(), id) {
            r.push(k);
        }
        k = k + 1;
    }
    assert(items@.take(items@.len() as int) =~= items@);
    r
}

/// The groups are strictly ordered by id.
pub open spec fn groups_sorted(g: Seq<(Seq<char>, Seq<usize>)>) -> bool {
    forall|k: int, l: int| 0 <= k < l < g.len() ==> seq_lt((#[trigger] g[k]).0, (#[trigger] g[l]).0)
}

/// Inserts a group with a new id at its place in id order.
fn insert_group(out: &mut Vec<(String, Vec<usize>)>, id: String, pos: Vec<usize>) -> (p: usize)
    requires
        groups_sorted(gv(old(out)@)),
        forall|m: int| 0 <= m < old(out)@.len() ==> (#[trigger] old(out)@[m]).0@ != id@,
    ensures
        p <= old(out)@.len(),
        final(out)@ == old(out)@.insert(p as int, (id, pos)),
        groups_sorted(gv(final(out)@)),
{
    let ghost o = gv(out@);
    let mut p: usize = 0;
    let mut go = true;
    while go && p < out.len()
        invariant
            o == gv(out@),
            p <= out@.len(),
            forall|k: int| 0 <= k < p ==> seq_lt((#[trigger] o[k]).0, id@),
            !go ==> p < out@.len() && !seq_lt(o[p as int].0, id@),
        decreases out.len() - p, if go { 1int } else { 0int },
    {
        if str_lt(out[p].0.as_str(), id.as_str()) {
            p = p + 1;
        } else {
            go = false;
        }
    }
    proof {
        assert forall|k: int| p <= k < o.len() implies seq_lt(id@, (#[trigger] o[k]).0) by {
            assert(old(out)@[k].0@ == o[k].0);
            lemma_seq_lt_trichotomy(id@, o[k].0);
            if k > p {
                lemma_seq_lt_trichotomy(id@, o[p as int].0);
                if seq_lt(o[k].0, id@) {
                    lemma_seq_lt_trans(o[p as int].0, o[k].0, id@);
                }
            }
        }
    }
    let ghost idv = id@;
    let ghost posv = pos@;
    out.insert(p, (id, pos));
    proof {
        let n = gv(out@);
        assert(n =~= o.insert(p as int, (idv, posv)));
        assert forall|k: int, l: int| 0 <= k < l < n.len() implies seq_lt((#[trigger] n[k]).0, (#[trigger] n[l]).0) by {
            if l < p {
            } else if l == p {
            } else if k < p {
                lemma_seq_lt_trans(o[k].0, idv, o[l - 1].0);
            } else if k == p {
            } else {
            }
        }
    }
    p
}

/// The duplicate-id groups of the items, ordered by id.
fn duplicate_groups(items: &Vec<HandoffItem>) -> (r: Vec<(String, Vec<usize>)>)
    ensures
        dup_groups_ok(items@, gv(r@)),
{
    let mut out: Vec<(String, Vec<usize>)> = Vec::new();
    let mut i: usize = 0;
    while i < items.len()
        invariant
            i <= items@.len(),
            forall|k: int|
                0 <= k < gv(out@).len() ==> (#[trigger] gv(out@)[k]).0.len() > 0 && gv(out@)[k].1
                    == positions(items@, gv(out@)[k].0) && gv(out@)[k].1.len() > 1,
            groups_sorted(gv(out@)),
            forall|k: int|
                0 <= k < i && (#[trigger] items@[k]).id@.len() > 0 && positions(items@, items@[k].id@).len()
                    > 1 ==> exists|m: int| 0 <= m < gv(out@).len() && (#[trigger] gv(out@)[m]).0 == items@[k].id@,
        decreases items.len() - i,
    {
        let id = &items[i].id;
        if id.as_str().unicode_len() > 0 {
            let mut m: usize = 0;
            let mut found = false;
            while m < out.len() && !found
                invariant
                    m <= out@.len(),
                    found ==> m < out@.len() && gv(out@)[m as int].0 == id@,
                    !found ==> forall|t: int| 0 <= t < m ==> (#[trigger] gv(out@)[t]).0 != id@,
                decreases out.len() - m, if found { 0int } else { 1int },
            {
                if str_eq(out[m].0.as_str(), id.as_str()) {
                    found = true;
                } else {
                    m = m + 1;
                }
            }
            if !found {
                let pos = positions_exec(items, id.as_str());
                if pos.len() > 1 {
                    let ghost before = gv(out@);
                    let ghost bo = out@;
                    assert forall|t: int| 0 <= t < bo.len() implies (#[trigger] bo[t]).0@ != id@ by {
                        assert(before[t].0 == bo[t].0@);
                    }
                    let p = insert_group(&mut out, id.clone(), pos);
                    proof {
                        let after = gv(out@);
                        assert(after =~= before.insert(p as int, (id@, positions(items@, id@))));
                        assert forall|k: int|
                            0 <= k < i + 1 && (#[trigger] items@[k]).id@.len() > 0 && positions(
                                items@,
                                items@[k].id@,
                            ).len() > 1 implies exists|m: int|
                            0 <= m < after.len() && (#[trigger] after[m]).0 == items@[k].id@ by {
                            if k == i {
                                assert(after[p as int].0 == items@[k].id@);
                            } else {
                                let w = choose|m: int| 0 <= m < before.len() && (#[trigger] before[m]).0 == items@[k].id@;
                                if w < p {
                                    assert(after[w].0 == items@[k].id@);
                                } else {
                                    assert(after[w + 1].0 == items@[k].id@);
                                }
                            }
                        }
                    }
                }
            }
        }
        i = i + 1;
    }
    out
}

/// A commit reference as plain values: object form or not, SHA, branch.
pub open spec fn commit_view(c: CommitRef) -> (bool, Seq<char>, Option<Seq<char>>) {
    match c {
        CommitRef::Sha(s) => (false, s@, None),
        CommitRef::Object { sha, branch } => (true, sha@, ov(branch)),
    }
}

/// The views of a list of commit references.
pub open spec fn commit_views(s: Seq<CommitRef>) -> Seq<(bool, Seq<char>, Option<Seq<char>>)> {
    s.map_values(|c: CommitRef| commit_view(c))
}

/// The string under `key` in a YAML mapping, when there is one.
pub open spec fn mapping_str(m: Seq<(YamlValue, YamlValue)>, key: Seq<char>) -> Option<Seq<char>> {
    match mapping_get(m, key) {
        Some(v) => as_str_spec(v),
        None => None,
    }
}

/// How `repair` reads one entry of a misplaced record's `commits`: a plain
/// string is a bare SHA; a mapping with a string `sha` is the object form
/// (with its `branch` when that is a string); anything else is dropped.
pub open spec fn repair_commit_spec(v: YamlValue) -> Option<(bool, Seq<char>, Option<Seq<char>>)> {
    match v {
        YamlValue::String(s) => Some((false, s@, None)),
        YamlValue::Mapping(m) => match mapping_str(m@, "sha"@) {
            Some(sha) => Some((true, sha, mapping_str(m@, "branch"@))),
            None => None,
        },
        _ => None,
    }
}

/// The commits `repair` reads from a list of YAML values, in order.
pub open spec fn repair_commits_of(s: Seq<YamlValue>) -> Seq<(bool, Seq<char>, Option<Seq<char>>)>
    decreases s.len(),
{
    if s.len() == 0 {
        Seq::empty()
    } else {
        match repair_commit_spec(s.last()) {
            Some(c) => repair_commits_of(s.drop_last()).push(c),
            None => repair_commits_of(s.drop_last()),
        }
    }
}

/// The commits `repair` reads from a record's `commits` field.
pub open spec fn repair_commits(fields: FieldMap) -> Seq<(bool, Seq<char>, Option<Seq<char>>)> {
    match fields.get_spec("commits"@) {
        Some(v) => match as_seq_spec(v) {
            Some(s) => repair_commits_of(s),
            None => Seq::empty(),
        },
        None => Seq::empty(),
    }
}

/// The fields that a log entry holds by name.
pub open spec fn is_log_field(k: Seq<char>) -> bool {
    k == "date"@ || k == "summary"@ || k == "commits"@
}

/// `e` is the log entry that `repair` makes of the misplaced record `item`.
pub open spec fn log_entry_of_item(e: LogEntry, item: HandoffItem) -> bool {
    &&& ov(e.date) == field_str(item.extra_fields, "date"@)
    &&& e.summary@ == match field_str(item.extra_fields, "summary"@) {
        Some(s) => s,
        None => Seq::<char>::empty(),
    }
    &&& commit_views(e.commits@) == repair_commits(item.extra_fields)
    &&& forall|k: Seq<char>|
        #[trigger] e.extra.get_spec(k) == if is_log_field(k) {
            None
        } else {
            item.extra_fields.get_spec(k)
        }
}

/// The items that `repair` keeps, in order.
pub open spec fn kept_items(items: Seq<HandoffItem>) -> Seq<HandoffItem>
    decreases items.len(),
{
    if items.len() == 0 {
        Seq::<HandoffItem>::empty()
    } else if looks_like_log_entry_spec(items.last()) {
        kept_items(items.drop_last())
    } else {
        kept_items(items.drop_last()).push(items.last())
    }
}

/// The misplaced log records among the items, in order.
pub open spec fn moved_items(items: Seq<HandoffItem>) -> Seq<HandoffItem>
    decreases items.len(),
{
    if items.len() == 0 {
        Seq::<HandoffItem>::empty()
    } else if looks_like_log_entry_spec(items.last()) {
        moved_items(items.drop_last()).push(items.last())
    } else {
        moved_items(items.drop_last())
    }
}

/// The note `repair` gives for the record it moved from position `i`.
pub open spec fn repair_note(date: Option<Seq<char>>, i: nat) -> Seq<char> {
    "moved log entry (date: "@ + match date {
        Some(d) => d,
        None => "unknown"@,
    } + ") from items["@ + dec(i) + "] to log"@
}

/// The notes `repair` gives, one per moved record, in item order.
pub open spec fn repair_notes(items: Seq<HandoffItem>) -> Seq<Seq<char>>
    decreases items.len(),
{
    if items.len() == 0 {
        Seq::<Seq<char>>::empty()
    } else if looks_like_log_entry_spec(items.last()) {
        repair_notes(items.drop_last()).push(
            repair_note(field_str(items.last().extra_fields, "date"@), (items.len() - 1) as nat),
        )
    } else {
        repair_notes(items.drop_last())
    }
}

/// `m` holds the log entries made of the misplaced records of `items`.
pub open spec fn moved_entries(m: Seq<LogEntry>, items: Seq<HandoffItem>) -> bool {
    &&& m.len() == moved_items(items).len()
    &&& forall|j: int| 0 <= j < m.len() ==> log_entry_of_item(#[trigger] m[j], moved_items(items)[j])
}

/// The date a log entry sorts by (none sorts as the empty string).
pub open spec fn date_key(e: LogEntry) -> Seq<char> {
    match ov(e.date) {
        Some(d) => d,
        None => Seq::<char>::empty(),
    }
}

/// Stable insertion of `x` behind every entry dated no earlier than it.
pub open spec fn insert_log(s: Seq<LogEntry>, x: LogEntry) -> Seq<LogEntry>
    decreases s.len(),
{
    if s.len() == 0 {
        seq![x]
    } else if seq_le(date_key(x), date_key(s.last())) {
        s.push(x)
    } else {
        insert_log(s.drop_last(), x).push(s.last())
    }
}

/// The log ordered newest first, entries of equal date in their old order
/// (a stable sort by date, descending).
pub open spec fn sort_log(s: Seq<LogEntry>) -> Seq<LogEntry>
    decreases s.len(),
{
    if s.len() == 0 {
        Seq::<LogEntry>::empty()
    } else {
        insert_log(sort_log(s.drop_last()), s.last())
    }
}

proof fn lemma_mapping_get_skip(m: Seq<(YamlValue, YamlValue)>, key: Seq<char>, j: int)
    requires
        0 <= j <= m.len(),
        forall|t: int| 0 <= t < j ==> !is_str_key(#[trigger] m[t].0, key),
    ensures
        mapping_get(m, key) == mapping_get(m.subrange(j, m.len() as int), key),
    decreases j,
{
    if j == 0 {
        assert(m.subrange(0, m.len() as int) =~= m);
    } else {
        let d = m.drop_first();
        assert forall|t: int| 0 <= t < j - 1 implies !is_str_key(#[trigger] d[t].0, key) by {
            assert(d[t] == m[t + 1]);
        }
        lemma_mapping_get_skip(d, key, j - 1);
        assert(d.subrange(j - 1, d.len() as int) =~= m.subrange(j, m.len() as int));
    }
}

/// The value of the first entry of a YAML mapping whose key is the string `key`.
pub fn mapping_get_exec<'a>(m: &'a Vec<(YamlValue, YamlValue)>, key: &str) -> (r: Option<&'a YamlValue>)
    ensures
        r matches Some(v) ==> mapping_get(m@, key@) == Some(*v),
        r is None ==> mapping_get(m@, key@) is None,
{
    let mut j: usize = 0;
    while j < m.len()
        invariant
            j <= m@.len(),
            forall|t: int| 0 <= t < j ==> !is_str_key(#[trigger] m@[t].0, key@),
        decreases m.len() - j,
    {
        let hit = match &m[j].0 {
            YamlValue::String(s) => str_eq(s.as_str(), key),
            _ => false,
        };
        if hit {
            proof {
                lemma_mapping_get_skip(m@, key@, j as int);
                assert(m@.subrange(j as int, m@.len() as int)[0] == m@[j as int]);
            }
            return Some(&m[j].1);
        }
        j = j + 1;
    }
    proof {
        lemma_mapping_get_skip(m@, key@, j as int);
    }
    None
}

/// The string under `key` in a YAML mapping, when there is one.
pub fn mapping_string(m: &Vec<(YamlValue, YamlValue)>, key: &str) -> (r: Option<String>)
    ensures
        ov(r) == mapping_str(m@, key@),
{
    match mapping_get_exec(m, key) {
        Some(v) => match v.as_str() {
            Some(s) => Some(owned(s)),
            None => None,
        },
        None => None,
    }
}

/// One entry of a misplaced record's `commits`, as `repair` reads it.
fn repair_commit(v: &YamlValue) -> (r: Option<CommitRef>)
    ensures
        match r {
            Some(c) => repair_commit_spec(*v) == Some(commit_view(c)),
            None => repair_commit_spec(*v) is None,
        },
{
    match v {
        YamlValue::String(s) => Some(CommitRef::Sha(s.clone())),
        YamlValue::Mapping(m) => match mapping_string(m, "sha") {
            Some(sha) => {
                let branch = mapping_string(m, "branch");
                Some(CommitRef::Object { sha, branch })
            },
            None => None,
        },
        _ => None,
    }
}

/// The commits `repair` reads from a list of YAML values.
fn repair_commit_list(seq: &Vec<YamlValue>) -> (r: Vec<CommitRef>)
    ensures
        commit_views(r@) == repair_commits_of(seq@),
{
    let mut r: Vec<CommitRef> = Vec::new();
    let mut k: usize = 0;
    while k < seq.len()
        invariant
            k <= seq@.len(),
            commit_views(r@) == repair_commits_of(seq@.take(k as int)),
        decreases seq.len() - k,
    {
        assert(seq@.take(k + 1).drop_last() =~= seq@.take(k as int));
        assert(seq@.take(k + 1).last() == seq@[k as int]);
        let ghost before = r@;
        match repair_commit(&seq[k]) {
            Some(c) => {
                r.push(c);
                assert(commit_views(r@) =~= commit_views(before).push(commit_view(c)));
            },
            None => {},
        }
        k = k + 1;
    }
    assert(seq@.take(seq@.len() as int) =~= seq@);
    r
}

/// The log entry made of a misplaced record: its date, summary and commits,
/// and its other fields as the entry's extra fields.
fn log_entry_from_item(item: HandoffItem) -> (e: LogEntry)
    ensures
        log_entry_of_item(e, item),
{
    let date = field_string(&item.extra_fields, "date");
    let summary = match field_string(&item.extra_fields, "summary") {
        Some(s) => s,
        None => String::new(),
    };
    let commits = match item.extra_fields.get("commits") {
        Some(v) => match v.as_sequence() {
            Some(seq) => repair_commit_list(seq),
            None => Vec::new(),
        },
        None => Vec::new(),
    };
    let mut extra = item.extra_fields;
    extra.remove("date");
    extra.remove("summary");
    extra.remove("commits");
    let e = LogEntry { date, summary, commits, extra };
    assert(commit_views(e.commits@) == repair_commits(item.extra_fields));
    e
}

/// The note for a record moved from position `i`.
fn repair_note_exec(date: &Option<String>, i: usize) -> (r: String)
    ensures
        r@ == repair_note(ov(*date), i as nat),
{
    let mut r = owned("moved log entry (date: ");
    match date {
        Some(d) => r.append(d.as_str()),
        None => r.append("unknown"),
    }
    r.append(") from items[");
    push_decimal(&mut r, i);
    r.append("] to log");
    r
}

proof fn lemma_insert_log_at(s: Seq<LogEntry>, x: LogEntry, p: int)
    requires
        0 <= p <= s.len(),
        p == 0 || seq_le(date_key(x), date_key(s[p - 1])),
        forall|j: int| p <= j < s.len() ==> !seq_le(date_key(x), date_key(#[trigger] s[j])),
    ensures
        insert_log(s, x) == s.subrange(0, p).push(x) + s.subrange(p, s.len() as int),
    decreases s.len(),
{
    if s.len() == 0 {
        assert(s.subrange(0, p).push(x) + s.subrange(p, s.len() as int) =~= seq![x]);
    } else if p == s.len() {
        assert(s.subrange(0, p).push(x) + s.subrange(p, s.len() as int) =~= s.push(x));
    } else {
        assert(!seq_le(date_key(x), date_key(s[s.len() - 1])));
        let d = s.drop_last();
        assert forall|j: int| p <= j < d.len() implies !seq_le(date_key(x), date_key(#[trigger] d[j])) by {
            assert(d[j] == s[j]);
        }
        if p > 0 {
            assert(d[p - 1] == s[p - 1]);
        }
        lemma_insert_log_at(d, x, p);
        assert(d.subrange(0, p).push(x) + d.subrange(p, d.len() as int) + seq![s.last()] =~= s.subrange(
            0,
            p,
        ).push(x) + s.subrange(p, s.len() as int));
    }
}

/// The date of a log entry, as characters (none is empty).
fn date_chars(e: &LogEntry) -> (r: Vec<char>)
    ensures
        r@ == date_key(*e),
{
    match &e.date {
        Some(d) => crate::text::chars_of(d.as_str()),
        None => Vec::new(),
    }
}

/// Sorts the log newest first, keeping entries of equal date in order.
fn sort_log_exec(log: Vec<LogEntry>) -> (r: Vec<LogEntry>)
    ensures
        r@ == sort_log(log@),
{
    let ghost orig = log@;
    let n = log.len();
    assert(orig.len() == n);
    let mut rest = log;
    let mut out: Vec<LogEntry> = Vec::new();
    let mut i: usize = 0;
    while rest.len() > 0
        invariant
            i + rest@.len() == orig.len(),
            orig.len() <= usize::MAX,
            rest@ == orig.subrange(i as int, orig.len() as int),
            out@ == sort_log(orig.take(i as int)),
        decreases rest.len(),
    {
        let ghost rb = rest@;
        let x = rest.remove(0);
        assert(x == orig[i as int]) by {
            assert(rb[0] == orig.subrange(i as int, orig.len() as int)[0]);
        }
        assert(rest@ =~= orig.subrange(i + 1, orig.len() as int));
        assert(orig.take(i + 1).drop_last() =~= orig.take(i as int));
        assert(orig.take(i + 1).last() == x);
        let ghost s = out@;
        let xd = date_chars(&x);
        let mut p: usize = out.len();
        while p > 0 && !seq_le_dates(&xd, &out[p - 1])
            invariant
                p <= out@.len(),
                s == out@,
                xd@ == date_key(x),
                forall|j: int| p <= j < s.len() ==> !seq_le(date_key(x), date_key(#[trigger] s[j])),
            decreases p,
        {
            p = p - 1;
        }
        proof {
            lemma_insert_log_at(s, x, p as int);
        }
        out.insert(p, x);
        assert(out@ =~= s.subrange(0, p as int).push(x) + s.subrange(p as int, s.len() as int));
        i = i + 1;
    }
    assert(orig.take(orig.len() as int) =~= orig);
    out
}

/// Is the date `xd` no later than the date of `e`?
fn seq_le_dates(xd: &Vec<char>, e: &LogEntry) -> (r: bool)
    ensures
        r == seq_le(xd@, date_key(*e)),
{
    let ed = date_chars(e);
    crate::text::seq_lt_exec(xd, &ed) || crate::text::vec_eq(xd, &ed)
}

impl Handoff {
    /// The structural problems of the handoff: items without an id (or log
    /// records among the items) in item order, then each id used more than
    /// once (ordered by id, with all its positions), then log entries
    /// without a summary in log order.
    pub fn validate(&self) -> (r: Vec<ValidationWarning>)
        ensures
            exists|g: Seq<(Seq<char>, Seq<usize>)>|
                dup_groups_ok(self.items@, g) && wv(r@) == #[trigger] validate_spec(*self, g),
    {
        let mut w: Vec<ValidationWarning> = Vec::new();
        let mut i: usize = 0;
        while i < self.items.len()
            invariant
                i <= self.items@.len(),
                wv(w@) == id_warnings(self.items@.take(i as int)),
            decreases self.items.len() - i,
        {
            assert(self.items@.take(i + 1).drop_last() =~= self.items@.take(i as int));
            assert(self.items@.take(i + 1).last() == self.items@[i as int]);
            let item = &self.items[i];
            let ghost before = w@;
            if item.id.as_str().unicode_len() == 0 {
                if Self::looks_like_log_entry(item) {
                    let date = match field_string(&item.extra_fields, "date") {
                        Some(d) => d,
                        None => String::new(),
                    };
                    w.push(ValidationWarning::LogEntryInItems { index: i, date });
                } else {
                    w.push(ValidationWarning::ItemMissingId { index: i, title: item.title.clone() });
                }
                assert(wv(w@) =~= wv(before).push(warning_view(w@.last())));
            }
            i = i + 1;
        }
        assert(self.items@.take(self.items@.len() as int) =~= self.items@);
        let mut groups = duplicate_groups(&self.items);
        let ghost g = gv(groups@);
        let glen = groups.len();
        assert(g.len() == glen);
        let ghost base = wv(w@);
        let mut k: usize = 0;
        while groups.len() > 0
            invariant
                k + groups@.len() == g.len(),
                g.len() <= usize::MAX,
                gv(groups@) == g.subrange(k as int, g.len() as int),
                wv(w@) == base + dup_warnings(g.take(k as int)),
            decreases groups.len(),
        {
            let ghost before = w@;
            let ghost ob = groups@;
            let t = groups.remove(0);
            assert(g[k as int] == (t.0@, t.1@)) by {
                assert(gv(ob)[0] == g.subrange(k as int, g.len() as int)[0]);
            }
            assert(gv(groups@) =~= gv(ob).subrange(1, ob.len() as int));
            let (id, indices) = t;
            w.push(ValidationWarning::DuplicateItemId { id, indices });
            assert(dup_warnings(g.take(k + 1)) =~= dup_warnings(g.take(k as int)).push(
                WarningView::DuplicateItemId(g[k as int].0, g[k as int].1),
            ));
            assert(wv(w@) =~= wv(before).push(warning_view(w@.last())));
            assert(gv(groups@) =~= g.subrange(k + 1, g.len() as int));
            k = k + 1;
        }
        assert(g.take(g.len() as int) =~= g);
        let ghost mid = wv(w@);
        let mut j: usize = 0;
        while j < self.log.len()
            invariant
                j <= self.log@.len(),
                wv(w@) == mid + summary_warnings(self.log@.take(j as int)),
            decreases self.log.len() - j,
        {
            assert(self.log@.take(j + 1).drop_last() =~= self.log@.take(j as int));
            assert(self.log@.take(j + 1).last() == self.log@[j as int]);
            let ghost before = w@;
            if self.log[j].summary.as_str().unicode_len() == 0 {
                w.push(ValidationWarning::LogEntryMissingSummary { index: j });
                assert(wv(w@) =~= wv(before).push(warning_view(w@.last())));
            }
            j = j + 1;
        }
        assert(self.log@.take(self.log@.len() as int) =~= self.log@);
        assert(wv(w@) =~= validate_spec(*self, g));
        w
    }

    /// Moves the log records written among the items into the log, then
    /// orders the log newest first (entries of equal date keep their order).
    /// Returns one note per moved record, in item order.
    pub fn repair(&mut self) -> (r: Vec<String>)
        ensures
            crate::text::sv(r@) == repair_notes(old(self).items@),
            final(self).items@ == kept_items(old(self).items@),
            exists|m: Seq<LogEntry>|
                #[trigger] moved_entries(m, old(self).items@) && final(self).log@ == sort_log(
                    old(self).log@ + m,
                ),
            final(self).project == old(self).project,
            final(self).id == old(self).id,
            final(self).updated == old(self).updated,
            final(self).extra == old(self).extra,
    {
        let mut items: Vec<HandoffItem> = Vec::new();
        std::mem::swap(&mut items, &mut self.items);
        let mut log: Vec<LogEntry> = Vec::new();
        std::mem::swap(&mut log, &mut self.log);
        let ghost orig = items@;
        let ghost log0 = log@;
        let n = items.len();
        assert(orig.len() == n);
        let mut kept: Vec<HandoffItem> = Vec::new();
        let mut notes: Vec<String> = Vec::new();
        let ghost mut moved: Seq<LogEntry> = Seq::empty();
        let mut i: usize = 0;
        while items.len() > 0
            invariant
                i + items@.len() == orig.len(),
                orig.len() <= usize::MAX,
                items@ == orig.subrange(i as int, orig.len() as int),
                kept@ == kept_items(orig.take(i as int)),
                crate::text::sv(notes@) == repair_notes(orig.take(i as int)),
                moved_entries(moved, orig.take(i as int)),
                log@ == log0 + moved,
            decreases items.len(),
        {
            let ghost ib = items@;
            let item = items.remove(0);
            assert(item == orig[i as int]) by {
                assert(ib[0] == orig.subrange(i as int, orig.len() as int)[0]);
            }
            assert(items@ =~= orig.subrange(i + 1, orig.len() as int));
            let ghost pre = orig.take(i as int);
            let ghost cur = orig.take(i + 1);
            assert(cur.drop_last() =~= pre);
            assert(cur.last() == item);
            if Self::looks_like_log_entry(&item) {
                let date = field_string(&item.extra_fields, "date");
                let note = repair_note_exec(&date, i);
                let ghost nb = notes@;
                notes.push(note);
                assert(crate::text::sv(notes@) =~= crate::text::sv(nb).push(note@));
                let ghost it = item;
                let e = log_entry_from_item(item);
                let ghost mb = moved;
                proof {
                    moved = moved.push(e);
                    assert(moved_items(cur) == moved_items(pre).push(it));
                    assert forall|j: int| 0 <= j < moved.len() implies log_entry_of_item(
                        #[trigger] moved[j],
                        moved_items(cur)[j],
                    ) by {
                        if j < mb.len() {
                            assert(moved[j] == mb[j]);
                            assert(moved_items(cur)[j] == moved_items(pre)[j]);
                        }
                    }
                }
                log.push(e);
                assert(log@ =~= log0 + moved);
            } else {
                kept.push(item);
            }
            i = i + 1;
        }
        assert(orig.take(orig.len() as int) =~= orig);
        self.items = kept;
        self.log = sort_log_exec(log);
        notes
    }

    /// Is the item a log record written among the items?
    pub fn looks_like_log_entry(item: &HandoffItem) -> (r: bool)
        ensures
            r == looks_like_log_entry_spec(*item),
    {
        if item.id.as_str().unicode_len() > 0 {
            return false;
        }
        if item.extra_fields.contains_key("date") {
            return true;
        }
        item.extra_fields.contains_key("summary") && item.extra_fields.contains_key("commits")
    }
}

} // verus!

verus! {

/// After a repair no item looks like a log record, so `validate` reports no
/// log record among the items; a second repair moves nothing and keeps
/// every item.
pub proof fn law_repair_is_idempotent(items: Seq<HandoffItem>)
    ensures
        forall|i: int|
            0 <= i < kept_items(items).len() ==> !looks_like_log_entry_spec(#[trigger] kept_items(items)[i]),
        forall|k: int|
            0 <= k < id_warnings(kept_items(items)).len() ==> !(#[trigger] id_warnings(
                kept_items(items),
            )[k] is LogEntryInItems),
        kept_items(kept_items(items)) == kept_items(items),
        moved_items(kept_items(items)).len() == 0,
        repair_notes(kept_items(items)).len() == 0,
    decreases items.len(),
{
    if items.len() > 0 {
        law_repair_is_idempotent(items.drop_last());
        let k = kept_items(items);
        let k0 = kept_items(items.drop_last());
        if !looks_like_log_entry_spec(items.last()) {
            assert(k.drop_last() =~= k0);
            lemma_no_log_records(k);
        }
    }
}

proof fn lemma_no_log_records(s: Seq<HandoffItem>)
    requires
        forall|i: int| 0 <= i < s.len() ==> !looks_like_log_entry_spec(#[trigger] s[i]),
    ensures
        kept_items(s) == s,
        moved_items(s).len() == 0,
        repair_notes(s).len() == 0,
        forall|k: int| 0 <= k < id_warnings(s).len() ==> !(#[trigger] id_warnings(s)[k] is LogEntryInItems),
    decreases s.len(),
{
    if s.len() > 0 {
        let d = s.drop_last();
        assert forall|i: int| 0 <= i < d.len() implies !looks_like_log_entry_spec(#[trigger] d[i]) by {
            assert(d[i] == s[i]);
        }
        lemma_no_log_records(d);
        assert(s.last() == s[s.len() - 1]);
        assert(kept_items(s) =~= s);
    }
}

/// Repair loses nothing: every item is either kept or moved to the log,
/// and items that carry an id are always kept.
pub proof fn law_repair_partitions_items(items: Seq<HandoffItem>)
    ensures
        kept_items(items).len() + moved_items(items).len() == items.len(),
        repair_notes(items).len() == moved_items(items).len(),
        forall|j: int| 0 <= j < moved_items(items).len() ==> (#[trigger] moved_items(items)[j]).id@.len() == 0,
        forall|i: int|
            0 <= i < items.len() && (#[trigger] items[i]).id@.len() > 0 ==> kept_items(items).contains(
                items[i],
            ),
    decreases items.len(),
{
    if items.len() > 0 {
        let d = items.drop_last();
        law_repair_partitions_items(d);
        assert forall|i: int| 0 <= i < items.len() && (#[trigger] items[i]).id@.len() > 0 implies kept_items(
            items,
        ).contains(items[i]) by {
            if i < d.len() {
                assert(d[i] == items[i]);
                let w = choose|w: int| 0 <= w < kept_items(d).len() && kept_items(d)[w] == d[i];
                if !looks_like_log_entry_spec(items.last()) {
                    assert(kept_items(items)[w] == d[i]);
                }
            } else {
                assert(items[i] == items.last());
                assert(kept_items(items).last() == items.last());
            }
        }
    }
}

/// The repaired log is ordered newest first and keeps every entry.
pub proof fn law_log_sorted_newest_first(s: Seq<LogEntry>)
    ensures
        sort_log(s).len() == s.len(),
        sort_log(s).to_multiset() == s.to_multiset(),
        forall|i: int, j: int|
            0 <= i < j < sort_log(s).len() ==> seq_le(
                date_key(#[trigger] sort_log(s)[j]),
                date_key(#[trigger] sort_log(s)[i]),
            ),
    decreases s.len(),
{
    broadcast use {vstd::seq_lib::group_to_multiset_ensures, vstd::multiset::group_multiset_axioms};

    if s.len() > 0 {
        law_log_sorted_newest_first(s.drop_last());
        lemma_insert_log_sorted(sort_log(s.drop_last()), s.last());
        assert(s =~= s.drop_last().push(s.last()));
    } else {
        assert(sort_log(s) =~= s);
    }
}

proof fn lemma_date_le_total(a: Seq<char>, b: Seq<char>)
    ensures
        seq_le(a, b) || seq_le(b, a),
{
    lemma_seq_lt_trichotomy(a, b);
}

proof fn lemma_date_le_trans(a: Seq<char>, b: Seq<char>, c: Seq<char>)
    requires
        seq_le(a, b),
        seq_le(b, c),
    ensures
        seq_le(a, c),
{
    if seq_lt(a, b) && seq_lt(b, c) {
        lemma_seq_lt_trans(a, b, c);
    }
}

proof fn lemma_insert_log_sorted(s: Seq<LogEntry>, x: LogEntry)
    requires
        forall|i: int, j: int|
            0 <= i < j < s.len() ==> seq_le(date_key(#[trigger] s[j]), date_key(#[trigger] s[i])),
    ensures
        insert_log(s, x).len() == s.len() + 1,
        insert_log(s, x).to_multiset() == s.to_multiset().insert(x),
        forall|i: int, j: int|
            0 <= i < j < insert_log(s, x).len() ==> seq_le(
                date_key(#[trigger] insert_log(s, x)[j]),
                date_key(#[trigger] insert_log(s, x)[i]),
            ),
    decreases s.len(),
{
    broadcast use {vstd::seq_lib::group_to_multiset_ensures, vstd::multiset::group_multiset_axioms};

    if s.len() == 0 {
        assert(insert_log(s, x) =~= s.push(x));
    } else if seq_le(date_key(x), date_key(s.last())) {
        let r = s.push(x);
        assert forall|i: int, j: int| 0 <= i < j < r.len() implies seq_le(
            date_key(#[trigger] r[j]),
            date_key(#[trigger] r[i]),
        ) by {
            if j == s.len() && i < s.len() - 1 {
                lemma_date_le_trans(date_key(x), date_key(s.last()), date_key(s[i]));
            }
        }
    } else {
        let d = s.drop_last();
        assert forall|i: int, j: int| 0 <= i < j < d.len() implies seq_le(
            date_key(#[trigger] d[j]),
            date_key(#[trigger] d[i]),
        ) by {
            assert(d[i] == s[i] && d[j] == s[j]);
        }
        lemma_insert_log_sorted(d, x);
        let t = insert_log(d, x);
        let r = t.push(s.last());
        lemma_date_le_total(date_key(x), date_key(s.last()));
        assert forall|i: int, j: int| 0 <= i < j < r.len() implies seq_le(
            date_key(#[trigger] r[j]),
            date_key(#[trigger] r[i]),
        ) by {
            if j == t.len() {
                let y = t[i];
                assert(t.contains(y));
                assert(t.to_multiset().count(y) > 0);
                if y != x {
                    assert(d.to_multiset().count(y) > 0);
                    assert(d.contains(y));
                    let w = choose|w: int| 0 <= w < d.len() && d[w] == y;
                    assert(s[w] == y);
                    assert(seq_le(date_key(s[s.len() - 1]), date_key(s[w])));
                }
            }
        }
        assert(s =~= d.push(s.last()));
        assert(r.to_multiset() =~= s.to_multiset().insert(x));
    }
}

} // verus!

verus! {

/// `{:?}` of a list of indices: `[0, 2]`.
pub open spec fn indices_text(v: Seq<usize>) -> Seq<char> {
    "["@ + crate::text::join(v.map_values(|i: usize| dec(i as nat)), ", "@) + "]"@
}

/// How a warning reads.
pub open spec fn warning_text(w: ValidationWarning) -> Seq<char> {
    match w {
        ValidationWarning::ItemMissingId { index, title } => "items["@ + dec(index as nat)
            + "]: missing id field (title: '"@ + title@ + "')"@,
        ValidationWarning::LogEntryInItems { index, date } => "items["@ + dec(index as nat)
            + "]: looks like a log entry (date: "@ + date@ + ")"@,
        ValidationWarning::LogEntryMissingSummary { index } => "log["@ + dec(index as nat)
            + "]: missing summary"@,
        ValidationWarning::DuplicateItemId { id, indices } => "duplicate item id '"@ + id@
            + "' at indices "@ + indices_text(indices@),
    }
}

impl ValidationWarning {
    /// The warning as a sentence, naming the item or log entry it is about.
    pub fn to_string(&self) -> (r: String)
        ensures
            r@ == warning_text(*self),
    {
        match self {
            ValidationWarning::ItemMissingId { index, title } => {
                let mut r = owned("items[");
                push_decimal(&mut r, *index);
                r.append("]: missing id field (title: '");
                r.append(title.as_str());
                r.append("')");
                r
            },
            ValidationWarning::LogEntryInItems { index, date } => {
                let mut r = owned("items[");
                push_decimal(&mut r, *index);
                r.append("]: looks like a log entry (date: ");
                r.append(date.as_str());
                r.append(")");
                r
            },
            ValidationWarning::LogEntryMissingSummary { index } => {
                let mut r = owned("log[");
                push_decimal(&mut r, *index);
                r.append("]: missing summary");
                r
            },
            ValidationWarning::DuplicateItemId { id, indices } => {
                let mut r = owned("duplicate item id '");
                r.append(id.as_str());
                r.append("' at indices ");
                r.append("[");
                let ghost base = r@;
                let ghost ds = indices@.map_values(|i: usize| dec(i as nat));
                let mut k: usize = 0;
                while k < indices.len()
                    invariant
                        k <= indices@.len(),
                        ds == indices@.map_values(|i: usize| dec(i as nat)),
                        r@ == base + crate::text::join(ds.take(k as int), ", "@),
                    decreases indices.len() - k,
                {
                    assert(ds.take(k + 1).drop_last() =~= ds.take(k as int));
                    if k > 0 {
                        r.append(", ");
                    } else {
                        assert(ds.take(1) =~= seq![ds[0]]);
                        assert(r@ =~= base);
                    }
                    let ghost before = r@;
                    push_decimal(&mut r, indices[k]);
                    assert(ds[k as int] == dec(indices@[k as int] as nat));
                    k = k + 1;
                }
                assert(ds.take(indices@.len() as int) =~= ds);
                r.append("]");
                r
            },
        }
    }
}

} // verus!
