//! What a survey reads from a repository tree: which files are handoffs or
//! may hold todo markers, the markers in a line, and the open work listed
//! in a markdown handoff.

use vstd::prelude::*;

use crate::items::ov;
use crate::handup::SurveyHandoff;
use crate::model::HandoffItem;
use crate::naming::{infer_priority, infer_priority_spec};
use crate::paths::{file_name, file_name_of};
use crate::text::{
    chars_of, contains, contains_exec, dec, ends_with, ends_with_exec, lines, lines_vec, lower_seq,
    lower_vec, owned, push_decimal, starts_with, starts_with_exec, str_eq, string_of, trim, trim_vec, vv,
};

verus! {

/// A handoff file: `HANDOFF.*.yaml` or `HANDOFF.*.md`, not a state file.
pub open spec fn handoff_file_name(n: Seq<char>) -> bool {
    starts_with(n, "HANDOFF."@) && (ends_with(n, ".yaml"@) || ends_with(n, ".md"@)) && !ends_with(
        n,
        ".state.json"@,
    )
}

/// Is the file at `path` a handoff (by its name)?
pub fn is_handoff_file(path: &str) -> (r: bool)
    ensures
        r == match file_name(path@) {
            Some(n) => handoff_file_name(n),
            None => false,
        },
{
    match file_name_of(path) {
        Some(n) => {
            let c = chars_of(n.as_str());
            starts_with_exec(&c, &chars_of("HANDOFF.")) && (ends_with_exec(&c, &chars_of(".yaml"))
                || ends_with_exec(&c, &chars_of(".md"))) && !ends_with_exec(&c, &chars_of(".state.json"))
        },
        None => false,
    }
}

/// `Path::extension`: what follows the last dot of the file name, unless
/// the name has no dot or only a leading one.
pub open spec fn extension(p: Seq<char>) -> Option<Seq<char>> {
    match file_name(p) {
        Some(n) => if exists|i: int| 0 < i < n.len() && n[i] == '.' {
            let i = choose|i: int|
                0 < i < n.len() && n[i] == '.' && forall|j: int| i < j < n.len() ==> n[j] != '.';
            Some(n.subrange(i + 1, n.len() as int))
        } else {
            None
        },
        None => None,
    }
}

/// The extension of the file at `path`.
pub fn extension_of(path: &str) -> (r: Option<String>)
    ensures
        match r {
            Some(e) => extension(path@) == Some(e@),
            None => extension(path@) is None,
        },
{
    let n = match file_name_of(path) {
        Some(n) => n,
        None => return None,
    };
    let c = chars_of(n.as_str());
    let mut k: usize = c.len();
    while k > 1 && c[k - 1] != '.'
        invariant
            k <= c@.len(),
            c@ == n@,
            forall|j: int| k <= j < c@.len() ==> c@[j] != '.',
        decreases k,
    {
        k = k - 1;
    }
    if k > 1 {
        let i = k - 1;
        assert(0 < i < n@.len() && n@[i as int] == '.');
        let mut e: Vec<char> = Vec::new();
        let mut j: usize = k;
        while j < c.len()
            invariant
                k <= j <= c@.len(),
                e@ == c@.subrange(k as int, j as int),
            decreases c.len() - j,
        {
            e.push(c[j]);
            j = j + 1;
        }
        proof {
            let w = choose|w: int| 0 < w < n@.len() && n@[w] == '.' && forall|q: int| w < q < n@.len() ==> n@[q] != '.';
            if w < i {
                assert(n@[i as int] != '.');
            }
            if w > i {
                assert(n@[w] != '.');
            }
        }
        Some(string_of(e.as_slice()))
    } else {
        assert(!exists|i: int| 0 < i < n@.len() && n@[i] == '.');
        None
    }
}

/// A file a survey scans for todo markers: by extension `rs`, `sh`, `py`
/// or `toml`.
pub fn is_marker_file(path: &str) -> (r: bool)
    ensures
        r == match extension(path@) {
            Some(e) => e == "rs"@ || e == "sh"@ || e == "py"@ || e == "toml"@,
            None => false,
        },
{
    match extension_of(path) {
        Some(e) => {
            let e = e.as_str();
            str_eq(e, "rs") || str_eq(e, "sh") || str_eq(e, "py") || str_eq(e, "toml")
        },
        None => false,
    }
}

/// The marker a line holds: the first of `TODO:`, `FIXME:`, `HACK:`,
/// `XXX:` that it contains.
pub open spec fn marker_of(line: Seq<char>) -> Option<Seq<char>> {
    if contains(line, "TODO:"@) {
        Some("TODO:"@)
    } else if contains(line, "FIXME:"@) {
        Some("FIXME:"@)
    } else if contains(line, "HACK:"@) {
        Some("HACK:"@)
    } else if contains(line, "XXX:"@) {
        Some("XXX:"@)
    } else {
        None
    }
}

/// The marker in a line, if any.
pub fn extract_marker(line: &str) -> (r: Option<&'static str>)
    ensures
        match r {
            Some(m) => marker_of(line@) == Some(m@),
            None => marker_of(line@) is None,
        },
{
    let c = chars_of(line);
    if contains_exec(&c, &chars_of("TODO:")) {
        Some("TODO:")
    } else if contains_exec(&c, &chars_of("FIXME:")) {
        Some("FIXME:")
    } else if contains_exec(&c, &chars_of("HACK:")) {
        Some("HACK:")
    } else if contains_exec(&c, &chars_of("XXX:")) {
        Some("XXX:")
    } else {
        None
    }
}

/// `str::replace`: every occurrence of `from` (non-empty) replaced by `to`,
/// scanning left to right.
pub open spec fn replace_all(s: Seq<char>, from: Seq<char>, to: Seq<char>) -> Seq<char>
    decreases s.len(),
{
    if from.len() == 0 || s.len() == 0 {
        s
    } else if starts_with(s, from) {
        to + replace_all(s.subrange(from.len() as int, s.len() as int), from, to)
    } else {
        seq![s[0]] + replace_all(s.drop_first(), from, to)
    }
}

/// Replaces every occurrence of `from` (non-empty) in `s` by `to`.
fn replace_all_exec(s: &Vec<char>, from: &Vec<char>, to: &Vec<char>) -> (r: Vec<char>)
    requires
        from@.len() > 0,
    ensures
        r@ == replace_all(s@, from@, to@),
{
    let mut out: Vec<char> = Vec::new();
    let mut i: usize = 0;
    assert(s@.subrange(0, s@.len() as int) =~= s@);
    while i < s.len()
        invariant
            i <= s@.len(),
            from@.len() > 0,
            out@ + replace_all(s@.subrange(i as int, s@.len() as int), from@, to@) == replace_all(s@, from@, to@),
        decreases s.len() - i,
    {
        let ghost rest = s@.subrange(i as int, s@.len() as int);
        let mut hit = from.len() <= s.len() - i;
        let n = s.len();
        let mut k: usize = 0;
        while hit && k < from.len()
            invariant
                n == s@.len(),
                i + from@.len() <= s@.len() || !hit,
                k <= from@.len(),
                hit ==> forall|q: int| 0 <= q < k ==> s@[i + q] == from@[q],
                !hit ==> !starts_with(rest, from@),
                rest == s@.subrange(i as int, s@.len() as int),
            decreases from.len() - k, if hit { 1int } else { 0int },
        {
            assert(i + k < s@.len());
            if s[i + k] != from[k] {
                hit = false;
                assert(rest[k as int] == s@[i + k]);
            } else {
                k = k + 1;
            }
        }
        if hit {
            assert(rest.subrange(0, from@.len() as int) =~= from@);
            let mut t: usize = 0;
            let ghost o = out@;
            while t < to.len()
                invariant
                    t <= to@.len(),
                    out@ == o + to@.subrange(0, t as int),
                decreases to.len() - t,
            {
                out.push(to[t]);
                t = t + 1;
            }
            assert(to@.subrange(0, to@.len() as int) =~= to@);
            assert(rest.subrange(from@.len() as int, rest.len() as int) =~= s@.subrange(
                i + from@.len(),
                s@.len() as int,
            ));
            assert(o + (to@ + replace_all(rest.subrange(from@.len() as int, rest.len() as int), from@, to@))
                =~= out@ + replace_all(s@.subrange(i + from@.len(), s@.len() as int), from@, to@));
            i = i + from.len();
        } else {
            let ghost o = out@;
            out.push(s[i]);
            assert(rest.drop_first() =~= s@.subrange(i + 1, s@.len() as int));
            assert(o + (seq![rest[0]] + replace_all(rest.drop_first(), from@, to@)) =~= out@ + replace_all(
                s@.subrange(i + 1, s@.len() as int),
                from@,
                to@,
            ));
            i = i + 1;
        }
    }
    assert(out@ + replace_all(Seq::<char>::empty(), from@, to@) =~= out@);
    out
}

/// The name of the state file that goes with a handoff file: the handoff's
/// name with `.yaml` replaced by `.state.json`.
pub fn state_name_for(handoff_name: &str) -> (r: String)
    ensures
        r@ == replace_all(handoff_name@, ".yaml"@, ".state.json"@),
{
    let from = chars_of(".yaml");
    proof {
        reveal_strlit(".yaml");
    }
    let r = replace_all_exec(&chars_of(handoff_name), &from, &chars_of(".state.json"));
    string_of(r.as_slice())
}

/// `s` without its leading `#` characters.
pub open spec fn strip_hashes(s: Seq<char>) -> Seq<char>
    decreases s.len(),
{
    if s.len() > 0 && s[0] == '#' {
        strip_hashes(s.drop_first())
    } else {
        s
    }
}

/// Headings that open a list of open work.
pub open spec fn work_heading(n: Seq<char>) -> bool {
    n == "known gaps"@ || n == "next up"@ || n == "parked"@ || n == "remaining work"@
}

/// The text of a list entry: after `- `, `* ` or `1. `.
pub open spec fn bullet_text(t: Seq<char>) -> Option<Seq<char>> {
    if starts_with(t, "- "@) {
        Some(t.subrange(2, t.len() as int))
    } else if starts_with(t, "* "@) {
        Some(t.subrange(2, t.len() as int))
    } else if starts_with(t, "1. "@) {
        Some(t.subrange(3, t.len() as int))
    } else {
        None
    }
}

/// One line of a markdown handoff: a work heading opens a section, any
/// other heading closes it, and list entries inside a section are titles.
pub open spec fn md_step(st: (Seq<Seq<char>>, bool), line: Seq<char>) -> (Seq<Seq<char>>, bool) {
    let t = trim(line);
    if work_heading(lower_seq(trim(strip_hashes(t)))) {
        (st.0, true)
    } else if t.len() > 0 && t[0] == '#' {
        (st.0, false)
    } else if !st.1 {
        st
    } else {
        match bullet_text(t) {
            Some(title) => (st.0.push(title), st.1),
            None => st,
        }
    }
}

pub open spec fn md_run(ls: Seq<Seq<char>>) -> (Seq<Seq<char>>, bool)
    decreases ls.len(),
{
    if ls.len() == 0 {
        (Seq::empty(), false)
    } else {
        md_step(md_run(ls.drop_last()), ls.last())
    }
}

/// The titles of the open work a markdown handoff lists, in order.
pub open spec fn md_titles(contents: Seq<char>) -> Seq<Seq<char>> {
    md_run(lines(contents)).0
}

/// `item` is the item a markdown handoff's `k`-th title becomes: id
/// `md-<k+1>`, inferred priority, status `open`, nothing else set.
pub open spec fn md_item(item: HandoffItem, k: int, title: Seq<char>) -> bool {
    &&& item.id@ == "md-"@ + dec((k + 1) as nat)
    &&& ov(item.priority) == Some(infer_priority_spec(title, None))
    &&& ov(item.status) == Some("open"@)
    &&& item.title@ == title
    &&& item.doob_uuid is None
    &&& item.name is None
    &&& item.description is None
    &&& item.files@.len() == 0
    &&& item.completed is None
    &&& item.issue is None
    &&& item.extra@.len() == 0
    &&& item.extra_fields.len_spec() == 0
}

fn strip_hashes_exec(s: &Vec<char>) -> (r: Vec<char>)
    ensures
        r@ == strip_hashes(s@),
{
    let mut k: usize = 0;
    assert(s@.subrange(0, s@.len() as int) =~= s@);
    while k < s.len() && s[k] == '#'
        invariant
            k <= s@.len(),
            strip_hashes(s@) == strip_hashes(s@.subrange(k as int, s@.len() as int)),
        decreases s.len() - k,
    {
        assert(s@.subrange(k as int, s@.len() as int).drop_first() =~= s@.subrange(k + 1, s@.len() as int));
        k = k + 1;
    }
    let mut r: Vec<char> = Vec::new();
    let mut j: usize = k;
    while j < s.len()
        invariant
            k <= j <= s@.len(),
            r@ == s@.subrange(k as int, j as int),
        decreases s.len() - j,
    {
        r.push(s[j]);
        j = j + 1;
    }
    r
}

fn suffix_from(s: &Vec<char>, k: usize) -> (r: Vec<char>)
    requires
        k <= s@.len(),
    ensures
        r@ == s@.subrange(k as int, s@.len() as int),
{
    let mut r: Vec<char> = Vec::new();
    let mut j: usize = k;
    while j < s.len()
        invariant
            k <= j <= s@.len(),
            r@ == s@.subrange(k as int, j as int),
        decreases s.len() - j,
    {
        r.push(s[j]);
        j = j + 1;
    }
    r
}

fn bullet_exec(t: &Vec<char>) -> (r: Option<Vec<char>>)
    ensures
        match r {
            Some(b) => bullet_text(t@) == Some(b@),
            None => bullet_text(t@) is None,
        },
{
    let dash = chars_of("- ");
    let star = chars_of("* ");
    let one = chars_of("1. ");
    proof {
        reveal_strlit("- ");
        reveal_strlit("* ");
        reveal_strlit("1. ");
    }
    if starts_with_exec(t, &dash) {
        Some(suffix_from(t, 2))
    } else if starts_with_exec(t, &star) {
        Some(suffix_from(t, 2))
    } else if starts_with_exec(t, &one) {
        Some(suffix_from(t, 3))
    } else {
        None
    }
}

fn work_heading_exec(n: &Vec<char>) -> (r: bool)
    ensures
        r == work_heading(n@),
{
    let s = string_of(n.as_slice());
    str_eq(s.as_str(), "known gaps") || str_eq(s.as_str(), "next up") || str_eq(s.as_str(), "parked")
        || str_eq(s.as_str(), "remaining work")
}

/// The items of a markdown handoff: each list entry under a `Known gaps`,
/// `Next up`, `Parked` or `Remaining work` heading (any level, any case)
/// becomes an open item `md-<n>` with its inferred priority.
pub fn parse_markdown_handoff(contents: &str) -> (r: Vec<HandoffItem>)
    ensures
        r@.len() == md_titles(contents@).len(),
        forall|k: int| 0 <= k < r@.len() ==> md_item(#[trigger] r@[k], k, md_titles(contents@)[k]),
{
    let ls = lines_vec(&chars_of(contents));
    let ghost lv = vv(ls@);
    let mut items: Vec<HandoffItem> = Vec::new();
    let mut in_section = false;
    let ghost mut titles: Seq<Seq<char>> = Seq::empty();
    let mut i: usize = 0;
    while i < ls.len()
        invariant
            i <= ls@.len(),
            lv == vv(ls@),
            (titles, in_section) == md_run(lv.take(i as int)),
            items@.len() == titles.len(),
            items@.len() <= i,
            forall|k: int| 0 <= k < items@.len() ==> md_item(#[trigger] items@[k], k, titles[k]),
        decreases ls.len() - i,
    {
        assert(lv.take(i + 1).drop_last() =~= lv.take(i as int));
        assert(lv.take(i + 1).last() == ls@[i as int]@);
        let t = trim_vec(&ls[i]);
        let n = lower_vec(&trim_vec(&strip_hashes_exec(&t)));
        if work_heading_exec(&n) {
            in_section = true;
        } else if t.len() > 0 && t[0] == '#' {
            in_section = false;
        } else if in_section {
            match bullet_exec(&t) {
                Some(b) => {
                    let title = string_of(b.as_slice());
                    let mut item = HandoffItem::default();
                    let mut id = owned("md-");
                    push_decimal(&mut id, items.len() + 1);
                    item.id = id;
                    item.priority = Some(infer_priority(title.as_str(), None));
                    item.status = Some(owned("open"));
                    item.title = title;
                    proof {
                        titles = titles.push(b@);
                    }
                    items.push(item);
                },
                None => {},
            }
        }
        i = i + 1;
    }
    assert(lv.take(lv.len() as int) =~= lv);
    items
}

/// Does line `h` head a list of open work? Its text, without surrounding
/// whitespace and leading `#`s, reads `known gaps`, `next up`, `parked` or
/// `remaining work` in any ASCII case.
pub open spec fn opens_work_list(h: Seq<char>) -> bool {
    let n = lower_seq(trim(strip_hashes(trim(h))));
    ||| n == "remaining work"@
    ||| n == "parked"@
    ||| n == "next up"@
    ||| n == "known gaps"@
}

/// The entry text of a list line.
pub open spec fn entry_text(b: Seq<char>) -> Seq<char> {
    bullet_text(trim(b))->0
}

proof fn lemma_trim_end_keeps_first(s: Seq<char>)
    requires
        s.len() > 0,
        !crate::text::is_ws(s[0]),
    ensures
        crate::text::trim_end(s).len() > 0,
        crate::text::trim_end(s)[0] == s[0],
    decreases s.len(),
{
    if crate::text::is_ws(s.last()) {
        assert(s.len() > 1);
        assert(s.drop_last()[0] == s[0]);
        lemma_trim_end_keeps_first(s.drop_last());
    }
}

proof fn lemma_entry_line_not_heading(b: Seq<char>)
    requires
        bullet_text(trim(b)) is Some,
    ensures
        !work_heading(lower_seq(trim(strip_hashes(trim(b))))),
        !(trim(b).len() > 0 && trim(b)[0] == '#'),
{
    reveal_strlit("- ");
    reveal_strlit("* ");
    reveal_strlit("1. ");
    reveal_strlit("known gaps");
    reveal_strlit("next up");
    reveal_strlit("parked");
    reveal_strlit("remaining work");
    let t = trim(b);
    assert(t.len() >= 2);
    assert(t[0] == t.subrange(0, 2)[0]);
    assert(t[0] == '-' || t[0] == '*' || t[0] == '1');
    assert(strip_hashes(t) == t);
    assert(crate::text::trim_start(t) == t);
    lemma_trim_end_keeps_first(t);
    let n = lower_seq(trim(t));
    assert(n.len() > 0 && n[0] == crate::text::lower_char(t[0]));
    assert(n[0] == t[0]);
    assert("known gaps"@[0] == 'k');
    assert("next up"@[0] == 'n');
    assert("parked"@[0] == 'p');
    assert("remaining work"@[0] == 'r');
}

/// Every list entry under a heading that opens a list of open work
/// (`Known gaps`, `Next up`, `Parked`, `Remaining work`, any level, any
/// case) is a title of the handoff: whatever the lines before, the list
/// entries that follow such a heading add their texts, in order, to the
/// titles found so far.
pub proof fn law_work_list_entries_become_titles(
    contents: Seq<char>,
    before: Seq<Seq<char>>,
    heading: Seq<char>,
    entries: Seq<Seq<char>>,
)
    requires
        lines(contents) == before.push(heading) + entries,
        opens_work_list(heading),
        forall|k: int| 0 <= k < entries.len() ==> bullet_text(trim(#[trigger] entries[k])) is Some,
    ensures
        md_titles(contents) == md_run(before).0 + entries.map_values(|b: Seq<char>| entry_text(b)),
{
    lemma_section_run(before, heading, entries);
}

proof fn lemma_section_run(before: Seq<Seq<char>>, heading: Seq<char>, entries: Seq<Seq<char>>)
    requires
        opens_work_list(heading),
        forall|k: int| 0 <= k < entries.len() ==> bullet_text(trim(#[trigger] entries[k])) is Some,
    ensures
        md_run(before.push(heading) + entries) == (
            md_run(before).0 + entries.map_values(|b: Seq<char>| entry_text(b)),
            true,
        ),
    decreases entries.len(),
{
    let ls = before.push(heading) + entries;
    if entries.len() == 0 {
        assert(ls =~= before.push(heading));
        assert(ls.drop_last() =~= before);
        assert(md_run(before).0 + entries.map_values(|b: Seq<char>| entry_text(b)) =~= md_run(before).0);
    } else {
        let d = entries.drop_last();
        assert forall|k: int| 0 <= k < d.len() implies bullet_text(trim(#[trigger] d[k])) is Some by {
            assert(d[k] == entries[k]);
        }
        lemma_section_run(before, heading, d);
        assert(ls.drop_last() =~= before.push(heading) + d);
        let b = entries.last();
        assert(b == entries[entries.len() - 1]);
        assert(ls.last() == b);
        lemma_entry_line_not_heading(b);
        assert(entries.map_values(|b: Seq<char>| entry_text(b)) =~= d.map_values(|b: Seq<char>| entry_text(b)).push(
            entry_text(b),
        ));
    }
}

/// The named components of a path: its slash-separated parts without
/// empty and `.` parts.
pub open spec fn path_components(parts: Seq<Seq<char>>) -> Seq<Seq<char>>
    decreases parts.len(),
{
    if parts.len() == 0 {
        Seq::empty()
    } else if parts.last().len() == 0 || parts.last() == "."@ {
        path_components(parts.drop_last())
    } else {
        path_components(parts.drop_last()).push(parts.last())
    }
}

/// Lexicographic order of component lists.
pub open spec fn components_lt(a: Seq<Seq<char>>, b: Seq<Seq<char>>) -> bool
    decreases a.len(),
{
    if a.len() == 0 {
        b.len() > 0
    } else if b.len() == 0 {
        false
    } else if a[0] != b[0] {
        crate::text::seq_lt(a[0], b[0])
    } else {
        components_lt(a.drop_first(), b.drop_first())
    }
}

/// The order of paths of one kind (both absolute or both relative):
/// component by component.
pub open spec fn path_lt(a: Seq<char>, b: Seq<char>) -> bool {
    components_lt(
        path_components(crate::text::split_on(a, '/')),
        path_components(crate::text::split_on(b, '/')),
    )
}

/// Stable insertion of a survey behind every survey whose path is not
/// after its own.
pub open spec fn survey_insert(s: Seq<SurveyHandoff>, x: SurveyHandoff) -> Seq<SurveyHandoff>
    decreases s.len(),
{
    if s.len() == 0 {
        seq![x]
    } else if !path_lt(x.path@, s.last().path@) {
        s.push(x)
    } else {
        survey_insert(s.drop_last(), x).push(s.last())
    }
}

/// The surveys ordered by path (a stable sort).
pub open spec fn sort_surveys(s: Seq<SurveyHandoff>) -> Seq<SurveyHandoff>
    decreases s.len(),
{
    if s.len() == 0 {
        Seq::<SurveyHandoff>::empty()
    } else {
        survey_insert(sort_surveys(s.drop_last()), s.last())
    }
}

/// The named components of a path.
fn components_of(p: &str) -> (r: Vec<Vec<char>>)
    ensures
        vv(r@) == path_components(crate::text::split_on(p@, '/')),
{
    let parts = crate::text::split_vec(&chars_of(p), '/');
    let ghost pv = vv(parts@);
    let mut r: Vec<Vec<char>> = Vec::new();
    let mut k: usize = 0;
    while k < parts.len()
        invariant
            k <= parts@.len(),
            pv == vv(parts@),
            vv(r@) == path_components(pv.take(k as int)),
        decreases parts.len() - k,
    {
        assert(pv.take(k + 1).drop_last() =~= pv.take(k as int));
        assert(pv.take(k + 1).last() == parts@[k as int]@);
        let part = &parts[k];
        let dot = part.len() == 1 && part[0] == '.';
        proof {
            reveal_strlit(".");
            if part@.len() == 1 && part@[0] == '.' {
                assert(part@ =~= "."@);
            }
        }
        if part.len() > 0 && !dot {
            let c = part.clone();
            assert(c@ =~= part@);
            let ghost before = vv(r@);
            r.push(c);
            assert(vv(r@) =~= before.push(c@));
        }
        k = k + 1;
    }
    assert(pv.take(pv.len() as int) =~= pv);
    r
}

/// Is path `a` before path `b`?
fn path_lt_exec(a: &str, b: &str) -> (r: bool)
    ensures
        r == path_lt(a@, b@),
{
    let ca = components_of(a);
    let cb = components_of(b);
    let ghost va = vv(ca@);
    let ghost vb = vv(cb@);
    let mut k: usize = 0;
    assert(va.subrange(0, va.len() as int) =~= va);
    assert(vb.subrange(0, vb.len() as int) =~= vb);
    while k < ca.len() && k < cb.len() && crate::text::vec_eq(&ca[k], &cb[k])
        invariant
            k <= ca@.len(),
            k <= cb@.len(),
            va == vv(ca@),
            vb == vv(cb@),
            components_lt(va, vb) == components_lt(
                va.subrange(k as int, va.len() as int),
                vb.subrange(k as int, vb.len() as int),
            ),
        decreases ca.len() - k,
    {
        let ghost sa = va.subrange(k as int, va.len() as int);
        let ghost sb = vb.subrange(k as int, vb.len() as int);
        assert(sa[0] == ca@[k as int]@ && sb[0] == cb@[k as int]@);
        assert(sa.drop_first() =~= va.subrange(k + 1, va.len() as int));
        assert(sb.drop_first() =~= vb.subrange(k + 1, vb.len() as int));
        k = k + 1;
    }
    let ghost sa = va.subrange(k as int, va.len() as int);
    let ghost sb = vb.subrange(k as int, vb.len() as int);
    if k == ca.len() {
        k < cb.len()
    } else if k == cb.len() {
        false
    } else {
        assert(sa[0] == ca@[k as int]@ && sb[0] == cb@[k as int]@);
        crate::text::seq_lt_exec(&ca[k], &cb[k])
    }
}

proof fn lemma_survey_insert_at(s: Seq<SurveyHandoff>, x: SurveyHandoff, p: int)
    requires
        0 <= p <= s.len(),
        p == 0 || !path_lt(x.path@, s[p - 1].path@),
        forall|j: int| p <= j < s.len() ==> path_lt(x.path@, (#[trigger] s[j]).path@),
    ensures
        survey_insert(s, x) == s.subrange(0, p).push(x) + s.subrange(p, s.len() as int),
    decreases s.len(),
{
    if s.len() == 0 {
        assert(s.subrange(0, p).push(x) + s.subrange(p, s.len() as int) =~= seq![x]);
    } else if p == s.len() {
        assert(s.subrange(0, p).push(x) + s.subrange(p, s.len() as int) =~= s.push(x));
    } else {
        assert(path_lt(x.path@, s[s.len() - 1].path@));
        let d = s.drop_last();
        assert forall|j: int| p <= j < d.len() implies path_lt(x.path@, (#[trigger] d[j]).path@) by {
            assert(d[j] == s[j]);
        }
        if p > 0 {
            assert(d[p - 1] == s[p - 1]);
        }
        lemma_survey_insert_at(d, x, p);
        assert(d.subrange(0, p).push(x) + d.subrange(p, d.len() as int) + seq![s.last()] =~= s.subrange(
            0,
            p,
        ).push(x) + s.subrange(p, s.len() as int));
    }
}

/// Orders surveys by path, keeping the order of equal paths.
pub fn sort_surveys_by_path(v: Vec<SurveyHandoff>) -> (r: Vec<SurveyHandoff>)
    ensures
        r@ == sort_surveys(v@),
{
    let ghost orig = v@;
    let n = v.len();
    assert(orig.len() == n);
    let mut rest = v;
    let mut out: Vec<SurveyHandoff> = Vec::new();
    let mut i: usize = 0;
    while rest.len() > 0
        invariant
            i + rest@.len() == orig.len(),
            orig.len() <= usize::MAX,
            rest@ == orig.subrange(i as int, orig.len() as int),
            out@ == sort_surveys(orig.take(i as int)),
        decreases rest.len(),
    {
        let ghost rb = rest@;
        let x = rest.remove(0);
        assert(x == orig[i as int]) by {
            assert(rb[0] == orig.subrange(i as int, orig.len() as int)[0]);
        }
        assert(rest@ =~= orig.subrange(i + 1, orig.len() as int));
        assert(orig.take(i + 1).drop_last() =~= orig.take(i as int));
        assert(orig.take(i + 1).last() == x);
        let ghost s = out@;
        let mut p: usize = out.len();
        while p > 0 && path_lt_exec(x.path.as_str(), out[p - 1].path.as_str())
            invariant
                p <= out@.len(),
                s == out@,
                forall|j: int| p <= j < s.len() ==> path_lt(x.path@, (#[trigger] s[j]).path@),
            decreases p,
        {
            p = p - 1;
        }
        proof {
            lemma_survey_insert_at(s, x, p as int);
        }
        out.insert(p, x);
        assert(out@ =~= s.subrange(0, p as int).push(x) + s.subrange(p as int, s.len() as int));
        i = i + 1;
    }
    assert(orig.take(orig.len() as int) =~= orig);
    out
}

/// A handoff's project name when it has a non-empty one, else the fallback.
pub open spec fn survey_project_name(project: Option<Seq<char>>, fallback: Seq<char>) -> Seq<char> {
    match project {
        Some(p) => if p.len() > 0 {
            p
        } else {
            fallback
        },
        None => fallback,
    }
}

/// A branch name as a survey keeps it: only when not empty.
pub open spec fn survey_branch(b: Option<Seq<char>>) -> Option<Seq<char>> {
    match b {
        Some(s) => if s.len() > 0 {
            Some(s)
        } else {
            None
        },
        None => None,
    }
}

fn survey_branch_exec(b: Option<String>) -> (r: Option<String>)
    ensures
        ov(r) == survey_branch(ov(b)),
{
    match b {
        Some(s) => if s.as_str().unicode_len() > 0 {
            Some(s)
        } else {
            None
        },
        None => None,
    }
}

/// The survey of a YAML handoff: its project name (or the fallback when it
/// has none), the repository's branch when known, the build and tests of
/// its state file, and its active items.
pub fn survey_from_handoff(
    path: String,
    repo_root: String,
    branch: Option<String>,
    handoff: crate::model::Handoff,
    fallback_name: String,
    build: Option<String>,
    tests: Option<String>,
) -> (r: SurveyHandoff)
    ensures
        r.path == path,
        r.repo_root == repo_root,
        r.project_name@ == survey_project_name(ov(handoff.project), fallback_name@),
        ov(r.branch) == survey_branch(ov(branch)),
        r.build == build,
        r.tests == tests,
        r.items@ == crate::items::active_seq(handoff.items@),
{
    let project_name = match &handoff.project {
        Some(p) => if p.as_str().unicode_len() > 0 {
            p.clone()
        } else {
            fallback_name
        },
        None => fallback_name,
    };
    let ghost items0 = handoff.items@;
    let mut items = handoff.items;
    let mut kept: Vec<HandoffItem> = Vec::new();
    let mut k: usize = 0;
    let n = items.len();
    assert(items0.len() == n);
    while items.len() > 0
        invariant
            k + items@.len() == items0.len(),
            items0.len() <= usize::MAX,
            items@ == items0.subrange(k as int, items0.len() as int),
            kept@ == crate::items::active_seq(items0.take(k as int)),
        decreases items.len(),
    {
        let ghost ib = items@;
        let it = items.remove(0);
        assert(it == items0[k as int]) by {
            assert(ib[0] == items0.subrange(k as int, items0.len() as int)[0]);
        }
        assert(items@ =~= items0.subrange(k + 1, items0.len() as int));
        assert(items0.take(k + 1).drop_last() =~= items0.take(k as int));
        assert(items0.take(k + 1).last() == it);
        if it.is_open_or_blocked() {
            kept.push(it);
        }
        k = k + 1;
    }
    assert(items0.take(items0.len() as int) =~= items0);
    SurveyHandoff {
        path,
        repo_root,
        project_name,
        branch: survey_branch_exec(branch),
        build,
        tests,
        items: kept,
    }
}

/// The survey of a markdown handoff: the open work it lists, under the
/// given project name, without build or test state.
pub fn survey_from_markdown(
    path: String,
    repo_root: String,
    branch: Option<String>,
    contents: &str,
    project_name: String,
) -> (r: SurveyHandoff)
    ensures
        r.path == path,
        r.repo_root == repo_root,
        r.project_name == project_name,
        ov(r.branch) == survey_branch(ov(branch)),
        r.build is None,
        r.tests is None,
        r.items@.len() == md_titles(contents@).len(),
        forall|k: int| 0 <= k < r.items@.len() ==> md_item(#[trigger] r.items@[k], k, md_titles(contents@)[k]),
{
    SurveyHandoff {
        path,
        repo_root,
        project_name,
        branch: survey_branch_exec(branch),
        build: None,
        tests: None,
        items: parse_markdown_handoff(contents),
    }
}

} // verus!
